//! Who gets in, and who is told.
use vstd::prelude::*;
use crate::bytes::array_of;
use crate::crypto::{public_key_valid, sha256, signature_valid};
use crate::ids::{
    AuthenticationChallenge, Ed25519PublicKeyBytes, UserId,
};
use crate::messages::{ClientMessage, ClientMessageView, ProtocolError, RelayMessageView};
use crate::protocol::decoded;
use crate::relay::enrollment::{issuance, registration, Registration};
use crate::relay::handshake::{
    after_entry, after_frame, after_registration, Claim, Handshake, HandshakeActionView,
};
use crate::relay::hub::{
    connections_of, evicted, judged, judged_members, registered, released, targets_of, theirs,
    unregistered, without_all_members, HubView, Target, Verdict,
};
use crate::relay::metrics::Metric;
use crate::relay::session::{handed_response, session_action, Handed, SessionActionView};
use crate::relay::tls::{identity_of, PrivateKeyView, TlsError};
use crate::relay::tables::{
    admitted, all_applied, applied, ChangeView, RelayView, StorageError, TokenRowView,
};
use crate::requests::{Rejection, ResponseView};

verus! {

/// Issuing a token for a user and a key's fingerprint stores the token's digest, with both
/// and with a life of 86400 seconds from now, unused. It fails exactly where that end
/// is no number that can be stored, or where the same token was issued before.
pub proof fn issuing_a_token(
    view: RelayView,
    token: Seq<u8>,
    user: UserId,
    fingerprint: Seq<u8>,
    now: i64,
)
    ensures
        ({
            let digest = array_of::<32>(sha256(token));
            match issuance(view, token, user, fingerprint, now) {
                Ok(change) => {
                    &&& now + 86400 <= i64::MAX
                    &&& !view.tokens.contains_key(digest)
                    &&& applied(view, change) == (RelayView {
                        tokens: view.tokens.insert(
                            digest,
                            TokenRowView {
                                user,
                                fingerprint,
                                expires: (now + 86400) as i64,
                                consumed: false,
                            },
                        ),
                        ..view
                    })
                },
                Err(error) => {
                    &&& error == StorageError::Database
                    &&& now + 86400 > i64::MAX || view.tokens.contains_key(digest)
                },
            }
        }),
{
}

/// Whether a token lets a user in with a key: it was issued for that user and for the
/// digest of that key, its life has not ended, and it was not used.
pub open spec fn lets_in(
    view: RelayView,
    token: Seq<u8>,
    user: UserId,
    key: Ed25519PublicKeyBytes,
    now: i64,
) -> bool {
    let digest = array_of::<32>(sha256(token));
    &&& view.tokens.contains_key(digest)
    &&& view.tokens[digest].user == user
    &&& view.tokens[digest].fingerprint == sha256(key@)
    &&& now < view.tokens[digest].expires
    &&& !view.tokens[digest].consumed
}

/// A registration: a user who is known under the same key is let in and nothing changes,
/// one who is known under another key is refused for that. Anybody else needs a token
/// that lets them in with their key; the token is then used, the user is known under
/// that key, and nothing else changes.
pub proof fn registering(
    view: RelayView,
    user: UserId,
    key: Ed25519PublicKeyBytes,
    token: Option<Seq<u8>>,
    now: i64,
)
    ensures
        match registration(view, user, key, token, now) {
            Ok((Registration::Existing, changes)) => {
                &&& view.identities.contains_key(user)
                &&& view.identities[user] == key
                &&& all_applied(view, changes) == view
            },
            Ok((Registration::New, changes)) => {
                &&& !view.identities.contains_key(user)
                &&& token matches Some(token) && lets_in(view, token, user, key, now)
                    && all_applied(view, changes) == (RelayView {
                    identities: view.identities.insert(user, key),
                    tokens: view.tokens.insert(
                        array_of::<32>(sha256(token)),
                        TokenRowView {
                            consumed: true,
                            ..view.tokens[array_of::<32>(sha256(token))]
                        },
                    ),
                    ..view
                })
            },
            Err(StorageError::IdentityKeyConflict) => view.identities.contains_key(user)
                && view.identities[user] != key,
            Err(StorageError::EnrollmentRequired) => !view.identities.contains_key(user) && !(
            token matches Some(token) && lets_in(view, token, user, key, now)),
            Err(_) => false,
        },
{
    let none = Seq::<ChangeView>::empty();
    assert(all_applied(view, none) == view);
    if let Some(token) = token {
        let first = ChangeView::TokenConsumed { hash: array_of::<32>(sha256(token)) };
        let second = ChangeView::Identity { user, key };
        assert(seq![first].drop_last() =~= none);
        assert(seq![first, second].drop_last() =~= seq![first]);
        assert(all_applied(view, seq![first]) == applied(view, first));
        assert(all_applied(view, seq![first, second]) == applied(applied(view, first), second));
    }
}

/// The greeting: the relay answers a client of version 9 with its own version and waits for
/// its name, and closes on everything else; another version is told which one is
/// supported.
pub proof fn greeting(frame: Seq<u8>, challenge: Option<AuthenticationChallenge>)
    ensures
        ({
            let (next, action) = after_frame(Handshake::Hello, frame, challenge);
            match decoded::<ClientMessage>(frame) {
                Ok(ClientMessageView::ClientHello { version }) => if version == 9 {
                    next == Handshake::Identify && action == HandshakeActionView::Send(
                        RelayMessageView::ServerHello { version: 9 },
                    )
                } else {
                    next == Handshake::Closed && (action matches HandshakeActionView::Fail(
                        reply,
                        _,
                    ) && reply == Some(
                        ProtocolError::UnsupportedVersion { supported: 9, received: version },
                    ))
                },
                _ => next == Handshake::Closed && action is Fail,
            }
        }),
{
}

/// The name: a client that names a user and a sound key, with or without a token, is sent
/// the challenge that was made for it, and what it said is kept with that challenge.
/// Everything else closes; an unsound key is told so.
pub proof fn naming(frame: Seq<u8>, challenge: Option<AuthenticationChallenge>)
    ensures
        ({
            let (next, action) = after_frame(Handshake::Identify, frame, challenge);
            match decoded::<ClientMessage>(frame) {
                Ok(ClientMessageView::ClientIdentify { user_id, public_key, enrollment }) => {
                    &&& !public_key_valid(public_key@) ==> next == Handshake::Closed && (
                    action matches HandshakeActionView::Fail(reply, _) && reply == Some(
                        ProtocolError::InvalidPublicKey,
                    ))
                    &&& public_key_valid(public_key@) ==> match challenge {
                        Some(sent) => {
                            &&& action == HandshakeActionView::Send(
                                RelayMessageView::ServerAuthenticationChallenge { challenge: sent },
                            )
                            &&& next matches Handshake::Respond(claim, kept) && kept == sent
                                && claim.user == user_id && claim.key == public_key && (
                            match enrollment {
                                Some(token) => claim.enrollment == Some(array_of::<32>(token)),
                                None => claim.enrollment is None,
                            })
                        },
                        None => next == Handshake::Closed && action is Fail,
                    }
                },
                _ => next == Handshake::Closed && action is Fail,
            }
        }),
{
}

/// The proof: a client is registered under what it said exactly where it sends a signature
/// under the key that it named, over the text `GROTTO-AUTH-V1`, the version in two
/// bytes, its user, its key and the challenge that it was sent. A signature that is
/// none is told that the authentication failed; everything else closes too.
pub proof fn proving(
    claim: Claim,
    sent: AuthenticationChallenge,
    frame: Seq<u8>,
    challenge: Option<AuthenticationChallenge>,
)
    ensures
        ({
            let (next, action) = after_frame(Handshake::Respond(claim, sent), frame, challenge);
            let signed = seq![71u8, 82, 79, 84, 84, 79, 45, 65, 85, 84, 72, 45, 86, 49, 0, 9]
                + claim.user@ + claim.key@ + sent@;
            match decoded::<ClientMessage>(frame) {
                Ok(ClientMessageView::ClientAuthenticationResponse { signature }) => if signature_valid(
                    claim.key@,
                    signed,
                    signature@,
                ) {
                    next == Handshake::Register(claim) && action == HandshakeActionView::Register(
                        claim,
                    )
                } else {
                    next == Handshake::Closed && (action matches HandshakeActionView::Fail(
                        reply,
                        _,
                    ) && reply == Some(ProtocolError::AuthenticationFailed))
                },
                _ => next == Handshake::Closed && action is Fail,
            }
        }),
{
    let signed = seq![71u8, 82, 79, 84, 84, 79, 45, 65, 85, 84, 72, 45, 86, 49, 0, 9]
        + claim.user@ + claim.key@ + sent@;
    reveal_with_fuel(crate::protocol::big_endian, 3);
    assert(crate::protocol::authentication_bytes(9, claim.user@, claim.key@, sent@) =~= signed);
}

/// The entry: who was registered enters under the user of the claim; who is refused for a
/// key that is known otherwise is told so, who has no token is told that the
/// authentication failed. Who entered is accepted under that very user; who is in
/// already is not.
pub proof fn entering(claim: Claim, result: Result<Registration, StorageError>, entered: bool)
    ensures
        match after_registration(Handshake::Register(claim), result) {
            (Handshake::Enter(user), HandshakeActionView::Enter(named)) => result is Ok && user
                == claim.user && named == claim.user,
            (Handshake::Closed, HandshakeActionView::Fail(reply, _)) => match result {
                Ok(_) => false,
                Err(StorageError::IdentityKeyConflict) => reply == Some(
                    ProtocolError::IdentityKeyConflict,
                ),
                Err(StorageError::EnrollmentRequired) => reply == Some(
                    ProtocolError::AuthenticationFailed,
                ),
                Err(_) => reply is None,
            },
            _ => false,
        },
        match after_entry(Handshake::Enter(claim.user), entered) {
            (Handshake::Done(user), HandshakeActionView::Accept(message)) => entered && user
                == claim.user && message == (RelayMessageView::ServerIdentifyAccepted {
                user_id: claim.user,
            }),
            (Handshake::Closed, HandshakeActionView::Fail(reply, _)) => !entered && reply == Some(
                ProtocolError::AuthenticationFailed,
            ),
            _ => false,
        },
{
}

proof fn targets_found(connections: Seq<(UserId, u64)>, recipients: Seq<UserId>)
    ensures
        forall|connection: (UserId, u64)| #[trigger]
            targets_of(connections, recipients).contains(connection) <==> connections.contains(
                connection,
            ) && recipients.contains(connection.0),
    decreases recipients.len(),
{
    let all = targets_of(connections, recipients);
    if recipients.len() > 0 {
        let fewer = recipients.drop_last();
        let last = recipients.last();
        targets_found(connections, fewer);
        crate::sequences::filter_members(connections, theirs(last));
        let first = targets_of(connections, fewer);
        let more = connections_of(connections, last);
        assert(all == first + more);
        assert(recipients =~= fewer.push(last));
        assert forall|user: UserId| #[trigger] recipients.contains(user) <==> fewer.contains(user)
            || user == last by {
            if fewer.contains(user) {
                let i = fewer.index_of(user);
                assert(recipients[i] == user);
            }
            if user == last {
                assert(recipients[recipients.len() - 1] == user);
            }
            if recipients.contains(user) && user != last {
                let i = recipients.index_of(user);
                assert(fewer[i] == user);
            }
        }
        assert forall|connection: (UserId, u64)| #[trigger] all.contains(connection)
            <==> connections.contains(connection) && recipients.contains(connection.0) by {
            if all.contains(connection) {
                let k = all.index_of(connection);
                if k < first.len() {
                    assert(first[k] == connection);
                    assert(first.contains(connection));
                } else {
                    assert(more[k - first.len()] == connection);
                    assert(theirs(last)(more[k - first.len()]));
                    assert(connections.contains(more[k - first.len()]));
                }
            }
            if connections.contains(connection) && recipients.contains(connection.0) {
                if fewer.contains(connection.0) {
                    assert(first.contains(connection));
                    let k = first.index_of(connection);
                    assert(all[k] == connection);
                } else {
                    let i = connections.index_of(connection);
                    assert(theirs(last)(connections[i]));
                    assert(more.contains(connections[i]));
                    let k = more.index_of(connection);
                    assert(all[first.len() + k] == connection);
                }
            }
        }
    } else {
        assert(all =~= Seq::<(UserId, u64)>::empty());
    }
}

/// Telling some users something reaches exactly their connections. One whose queue is
/// closed or has no room is dropped. Of the others each is sent it, but for mere news,
/// which only a connection gets in whose queue nothing waits.
pub proof fn telling(hub: HubView, recipients: Seq<UserId>, targets: Seq<Target>, news: bool)
    requires
        targets.map_values(|target: Target| target.connection) == targets_of(
            hub.connections,
            recipients,
        ),
    ensures
        forall|connection: (UserId, u64)| #[trigger]
            targets_of(hub.connections, recipients).contains(connection)
                <==> hub.connections.contains(connection) && recipients.contains(connection.0),
        forall|connection: (UserId, u64)| #[trigger]
            judged(targets, news, Verdict::Send).contains(connection) <==> exists|i: int|
                0 <= i < targets.len() && (#[trigger] targets[i]).connection == connection
                    && !targets[i].closed && targets[i].capacity > 0 && (news ==> targets[i].capacity
                    >= targets[i].max),
        forall|connection: (UserId, u64)| #[trigger]
            evicted(hub, judged(targets, news, Verdict::Evict)).connections.contains(connection)
                <==> hub.connections.contains(connection) && !exists|i: int|
                0 <= i < targets.len() && (#[trigger] targets[i]).connection == connection && (
                targets[i].closed || targets[i].capacity == 0),
        evicted(hub, judged(targets, news, Verdict::Evict)).active == hub.active,
        evicted(hub, judged(targets, news, Verdict::Evict)).next == hub.next,
{
    targets_found(hub.connections, recipients);
    judged_members(targets, news, Verdict::Evict);
    judged_members(targets, news, Verdict::Send);
    without_all_members(hub.connections, judged(targets, news, Verdict::Evict));
}

/// Coming and going: who is not in gets the next number, is in and is told from then on;
/// who is in already gets none and nothing changes. A connection that goes is no longer
/// told, and every other is; its user stays in until the session is given up.
pub proof fn coming_and_going(hub: HubView, user: UserId, id: u64)
    ensures
        match crate::relay::hub::registration(hub, user) {
            Some(number) => {
                &&& !hub.active.contains(user)
                &&& number == hub.next
                &&& registered(hub, user).active == hub.active.insert(user)
                &&& registered(hub, user).connections == hub.connections.push((user, number))
                &&& hub.next < u64::MAX ==> registered(hub, user).next == hub.next + 1
            },
            None => hub.active.contains(user) && registered(hub, user) == hub,
        },
        unregistered(hub, user, id).active == hub.active,
        unregistered(hub, user, id).next == hub.next,
        released(hub, user, id).active == hub.active.remove(user),
        released(hub, user, id).next == hub.next,
        released(hub, user, id).connections == unregistered(hub, user, id).connections,
        forall|connection: (UserId, u64)| #[trigger]
            unregistered(hub, user, id).connections.contains(connection)
                <==> hub.connections.contains(connection) && connection != (user, id),
{
    crate::relay::hub::eviction_is_exact(hub.connections, (user, id));
}

/// What a client says once it is in: a request within the rate is handed on as it is; one
/// beyond it is answered under its identifier that the relay is overloaded, and
/// counted; anything else is told to be unexpected.
pub proof fn requests_are_handed_on(message: ClientMessageView, within_rate: bool)
    ensures
        match message {
            ClientMessageView::Delivery { request_id, request } => if within_rate {
                session_action(message, within_rate) == SessionActionView::Deliver(
                    request_id,
                    request,
                )
            } else {
                session_action(message, within_rate) == SessionActionView::Reply(
                    RelayMessageView::Delivery {
                        request_id,
                        response: ResponseView::Rejected(Rejection::Overloaded),
                    },
                    Some(Metric::QueuePressure),
                )
            },
            _ => session_action(message, within_rate) matches SessionActionView::Reply(
                RelayMessageView::ProtocolError { .. },
                None,
            ),
        },
{
}

/// What a client hears of a request that was handed on: the answer as it is, an internal
/// failure where it failed, that the relay is overloaded where nobody took it.
pub proof fn answers_are_handed_back(handed: Handed)
    ensures
        match handed {
            Handed::Done(Ok(response)) => handed_response(handed) == response.deep_view(),
            Handed::Done(Err(_)) => handed_response(handed) == ResponseView::Rejected(
                Rejection::Internal,
            ),
            Handed::Unavailable => handed_response(handed) == ResponseView::Rejected(
                Rejection::Overloaded,
            ),
        },
{
}

/// What stands in the way of a change: a user, a token, a room, an event or a kept answer
/// that is there already; a token to use or a package to take that is not; a position or
/// a cursor that is not behind all others or cannot be stored; and a charge that cannot.
/// Nothing stands in the way of any other change.
pub proof fn constraints(view: RelayView, change: ChangeView)
    requires
        crate::relay::sound::sound(view),
    ensures
        admitted(view, change) <==> match change {
            ChangeView::Identity { user, .. } => !view.identities.contains_key(user),
            ChangeView::Token { hash, .. } => !view.tokens.contains_key(hash),
            ChangeView::TokenConsumed { hash } => view.tokens.contains_key(hash),
            ChangeView::Room { room, .. } => forall|i: int|
                0 <= i < view.rooms.len() ==> (#[trigger] view.rooms[i]).room != room,
            ChangeView::PackageTaken { user } => exists|i: int|
                0 <= i < view.packages.len() && (#[trigger] view.packages[i]).user == user,
            ChangeView::Event { room, sequence, id, .. } => {
                &&& 1 <= sequence <= 0x7fff_ffff_ffff_ffff
                &&& forall|i: int|
                    0 <= i < view.events.len() ==> (#[trigger] view.events[i]).id != id && (
                    view.events[i].room == room ==> view.events[i].sequence < sequence)
            },
            ChangeView::Welcome { cursor, .. } => {
                &&& 1 <= cursor <= 0x7fff_ffff_ffff_ffff
                &&& view.welcomes.len() > 0 ==> view.welcomes.last().cursor < cursor
            },
            ChangeView::SenderUsage { user, bytes } => crate::relay::effects::paid(
                view.sender_usage,
                user,
            ) + bytes <= 0x7fff_ffff_ffff_ffff,
            ChangeView::RoomUsage { room, bytes } => crate::relay::effects::paid(
                view.room_usage,
                room,
            ) + bytes <= 0x7fff_ffff_ffff_ffff,
            ChangeView::Request { user, id, .. } => !view.requests.contains_key((user, id)),
            _ => true,
        },
{
    match change {
        ChangeView::PackageTaken { user } => {
            crate::relay::effects::first_package_is_oldest(view.packages, user);
        },
        ChangeView::Event { room, .. } => {
            crate::relay::effects::head_is_newest(view, room);
        },
        ChangeView::Welcome { .. } => {
            crate::relay::effects::last_cursor_is_last(view.welcomes);
        },
        _ => {},
    }
}

/// A server's identity is what its texts hold: all certificates, the first private key, and
/// the digest of the first certificate, in hexadecimal, as its fingerprint. Without one
/// of them, or where a text is malformed, there is none.
pub proof fn assembling_an_identity(
    certificates: Option<Seq<Seq<u8>>>,
    key: Option<Option<PrivateKeyView>>,
)
    ensures
        match identity_of(certificates, key) {
            Ok(identity) => {
                &&& certificates == Some(identity.certificates)
                &&& identity.certificates.len() > 0
                &&& key == Some(Some(identity.key))
                &&& identity.fingerprint == crate::text::hex_text(sha256(identity.certificates[0]))
            },
            Err(error) => match error {
                TlsError::CertificatePem => certificates is None,
                TlsError::NoCertificates => certificates matches Some(all) && all.len() == 0,
                TlsError::KeyPem => certificates is Some && key is None,
                TlsError::NoPrivateKey => certificates is Some && key == Some(
                    None::<PrivateKeyView>,
                ),
                _ => false,
            },
        },
{
}

} // verus!
