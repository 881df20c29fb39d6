//! Whom and what a client trusts.
use vstd::prelude::*;
use crate::client::commands::{for_contact, text_import};
use crate::client::complete::package_verdict;
use crate::client::contacts::{
    card_import, own_card, parsed_card, verified_member, ContactCardView, MemberIdentityView,
};
use crate::client::errors::{StoreDefect, StoreError};
use crate::client::groups::{
    is_member, mls_package_member, mls_rewritten, named_member, package_check, processing_step,
    roster_verified, wire_check, ContentsView, MlsFailure, ProcessedView, Processing,
    ProcessingActionView, ProcessingFault, ProcessingInput, WireFault,
};
use crate::client::journal::EngineError;
use crate::client::laws::{applied_nothing, applied_one};
use crate::client::reception::budget_is_kept;
use crate::client::store::DatabaseSize;
use crate::client::tables::{client_all_applied, ClientChangeView, ClientView, ContactRowView};
use crate::crypto::{public_key_of, sha256, signature_by, signature_valid};
use crate::delivery::{EventView, MlsContentType};
use crate::ids::UserId;
use crate::protocol::parsed_fingerprint;
use crate::requests::{RequestView, ResponseView};
use crate::text::{hex_text, parsed_hex};
use crate::transcripts::event_data;

verus! {

/// The text `GROTTO-CONTACT-V1` and a zero, the user, the transport key and the group key:
/// what the signature of a card is over.
pub open spec fn signed_by_card(user: UserId, transport_key: Seq<u8>, mls_key: Seq<u8>) -> Seq<u8> {
    seq![71u8, 82, 79, 84, 84, 79, 45, 67, 79, 78, 84, 65, 67, 84, 45, 86, 49, 0] + user@
        + transport_key + mls_key
}

/// A card in bytes: a one, the user, the transport key, the group key and the signature.
pub open spec fn card_in_bytes(card: ContactCardView) -> Seq<u8> {
    seq![1u8] + card.user@ + card.transport_key + card.mls_key + card.signature
}

/// A card is read from a text exactly where the text writes 145 bytes of which the first is
/// a one and the last 64 are a signature, under the 32 bytes from the 18th on, over the
/// 16, 32 and 32 bytes before them as the user and the two keys; and these are what the
/// card holds.
pub proof fn reading_a_card(text: Seq<char>)
    ensures
        match parsed_hex(text, 145, true) {
            Ok(bytes) => {
                let card = ContactCardView {
                    user: UserId::of(bytes.subrange(1, 17)),
                    transport_key: bytes.subrange(17, 49),
                    mls_key: bytes.subrange(49, 81),
                    signature: bytes.subrange(81, 145),
                };
                if bytes[0] == 1 && signature_valid(
                    card.transport_key,
                    signed_by_card(card.user, card.transport_key, card.mls_key),
                    card.signature,
                ) {
                    parsed_card(text) == Ok::<ContactCardView, StoreError>(card)
                } else {
                    parsed_card(text) is Err
                }
            },
            Err(_) => parsed_card(text) is Err,
        },
{
}

/// A client's own card holds its user, the key that belongs to its seed and its group key,
/// signed with the seed. There is none exactly without a group key of 32 bytes.
pub proof fn making_a_card(user: UserId, seed: Seq<u8>, mls_identity: Option<(Seq<u8>, Seq<u8>)>)
    ensures
        match own_card(user, seed, mls_identity) {
            Ok(card) => {
                &&& mls_identity matches Some((public, _)) && public.len() == 32 && card.mls_key
                    == public
                &&& card.user == user
                &&& card.transport_key == public_key_of(seed)
                &&& card.signature == signature_by(
                    seed,
                    signed_by_card(user, card.transport_key, card.mls_key),
                )
            },
            Err(_) => !(mls_identity matches Some((public, _)) && public.len() == 32),
        },
{
}

/// Importing a card: it needs the fingerprint that the person was told, which is the digest
/// of the card's bytes, and its own signature. A user who is known keeps their card: the
/// same one changes nothing, another is refused. Within the budget anybody else is a
/// contact from then on, under the group key of the card, and nothing else changes.
pub proof fn importing_a_card(
    view: ClientView,
    budget: u64,
    card: ContactCardView,
    fingerprint: Seq<char>,
    size: DatabaseSize,
)
    requires
        budget < u64::MAX,
    ensures
        ({
            let told = parsed_fingerprint(fingerprint) matches Ok(digest) && digest == sha256(
                card_in_bytes(card),
            );
            let signed = signature_valid(
                card.transport_key,
                signed_by_card(card.user, card.transport_key, card.mls_key),
                card.signature,
            );
            let known = view.contacts.contains_key(card.user);
            let same = view.contacts[card.user].card == card_in_bytes(card);
            let space = size.page_count * size.page_size + 3 * 145 + 65536 <= budget;
            match card_import(view, budget, card, fingerprint, size) {
                Ok(changes) => {
                    &&& told
                    &&& signed
                    &&& known ==> same && client_all_applied(view, changes) == view
                    &&& !known ==> space && client_all_applied(view, changes) == (ClientView {
                        contacts: view.contacts.insert(
                            card.user,
                            ContactRowView { mls_key: card.mls_key, card: card_in_bytes(card) },
                        ),
                        ..view
                    })
                },
                Err(StoreError::InvalidData(StoreDefect::PinChanged)) => told && signed && known
                    && !same,
                Err(StoreError::Quota) => told && signed && !known && !space,
                Err(_) => !told || !signed,
            }
        }),
{
    budget_is_kept(size, 145, budget);
    applied_nothing(view);
    applied_one(
        view,
        ClientChangeView::Contact {
            user: card.user,
            mls_key: card.mls_key,
            card: card_in_bytes(card),
        },
    );
}

/// Whether a member of a group is who a contact is: named by the contact's identifier and
/// with the very key of the contact's card.
pub open spec fn is_contact(view: ClientView, member: MemberIdentityView) -> bool {
    &&& member.basic matches Some(name) && name.len() == 16 && view.contacts.contains_key(
        UserId::of(name),
    ) && view.contacts[UserId::of(name)].mls_key == member.signature_key
}

/// A member is verified exactly where they are who a contact is, and under the name that
/// they have.
pub proof fn trusting_a_member(view: ClientView, member: MemberIdentityView)
    ensures
        match verified_member(view, member) {
            Ok(name) => is_contact(view, member) && member.basic == Some(name),
            Err(_) => !is_contact(view, member),
        },
{
}

/// A package is taken exactly where its bytes are the ones that it is written as, and it
/// names a member who is the contact that it was asked for.
pub proof fn trusting_a_package(
    view: ClientView,
    wire: Result<(), WireFault>,
    member: Option<MemberIdentityView>,
    recipient: UserId,
)
    ensures
        package_check(view, wire, member, recipient) is Ok <==> wire is Ok && (
        member matches Some(named) && is_contact(view, named) && named.basic == Some(recipient@)),
{
    if let Some(named) = member {
        trusting_a_member(view, named);
    }
}

/// Whether what a group made of a message is what its event claims: from the event's
/// sender, bound to its room, its identifier and its parent, and of its kind; a commit
/// comes from within the group.
pub open spec fn as_claimed(
    event: EventView,
    contents: ContentsView,
    sender: Option<Seq<u8>>,
    authenticated_data: Seq<u8>,
) -> bool {
    &&& sender == Some(event.sender@)
    &&& authenticated_data == event_data(
        event.operation.room,
        event.id,
        event.operation.parent,
    )
    &&& match contents {
        ContentsView::Application { .. } => event.operation.content_type
            == MlsContentType::Application,
        ContentsView::Commit { external } => event.operation.content_type == MlsContentType::Commit
            && !external,
        ContentsView::Other => false,
    }
}

/// Processing an event, from its start: one whose bytes are not the ones that they are
/// written as, or that is not of the epoch that it claims, is rejected; otherwise its
/// group is loaded. One of a later epoch than the group's is blocked, one of an earlier
/// epoch is rejected, and one of the same is processed. What the group could not take
/// for a member who is not verified is blocked, a failure to store is a failure, any
/// other is a rejection. What it took is kept exactly where it is what the event claims
/// and every member is a contact: a message with its sender as the author, a commit
/// with the new epoch. Else it is rejected, or blocked for a member.
pub proof fn processing_an_event(
    view: ClientView,
    event: EventView,
    wire: Result<(), WireFault>,
    epoch: Option<u64>,
    current: u64,
    message: ProcessingInput,
)
    requires
        message is Message,
    ensures
        processing_step(
            view,
            event,
            wire,
            epoch,
            Processing::Opened,
            ProcessingInput::Start,
        ) == (if wire is Ok && epoch == Some(event.operation.epoch) {
            (Processing::Loading, ProcessingActionView::LoadGroup)
        } else {
            (Processing::Closed, ProcessingActionView::Refuse(ProcessingFault::Rejected))
        }),
        processing_step(
            view,
            event,
            wire,
            epoch,
            Processing::Loading,
            ProcessingInput::Group { epoch: current },
        ) == (if event.operation.epoch == current {
            (Processing::Receiving, ProcessingActionView::Process)
        } else if event.operation.epoch > current {
            (Processing::Closed, ProcessingActionView::Refuse(ProcessingFault::Blocked))
        } else {
            (Processing::Closed, ProcessingActionView::Refuse(ProcessingFault::Rejected))
        }),
        ({
            let (next, action) = processing_step(
                view,
                event,
                wire,
                epoch,
                Processing::Receiving,
                message,
            );
            let members = message->members.deep_view();
            let all = forall|i: int|
                0 <= i < members.len() ==> is_contact(view, #[trigger] members[i]);
            &&& next == Processing::Closed
            &&& match message->outcome {
                Err(MlsFailure::Identity) => action == ProcessingActionView::Refuse(
                    ProcessingFault::Blocked,
                ),
                Err(MlsFailure::Storage) => action == ProcessingActionView::Fail,
                Err(MlsFailure::Other) => action == ProcessingActionView::Refuse(
                    ProcessingFault::Rejected,
                ),
                Ok(received) => if !as_claimed(
                    event,
                    received.contents.deep_view(),
                    received.sender.deep_view(),
                    received.authenticated_data@,
                ) {
                    action == ProcessingActionView::Refuse(ProcessingFault::Rejected)
                } else if !all {
                    action == ProcessingActionView::Refuse(ProcessingFault::Blocked)
                } else {
                    match received.contents.deep_view() {
                        ContentsView::Application { plaintext } => action
                            == ProcessingActionView::Keep(
                            ProcessedView::Application { plaintext, author: event.sender@ },
                        ),
                        _ => action == ProcessingActionView::Keep(
                            ProcessedView::Commit { epoch: received.epoch },
                        ),
                    }
                },
            }
        }),
{
    let members = message->members.deep_view();
    assert forall|i: int| 0 <= i < members.len() implies is_contact(view, #[trigger] members[i]) == (
    verified_member(view, members[i]) is Ok) by {
        trusting_a_member(view, members[i]);
    }
    let all = forall|i: int| 0 <= i < members.len() ==> is_contact(view, #[trigger] members[i]);
    let verified = crate::client::groups::roster_verified(view, members);
    if verified {
        assert forall|i: int| 0 <= i < members.len() implies is_contact(
            view,
            #[trigger] members[i],
        ) by {
            assert(verified_member(view, members[i]) is Ok);
        }
    }
    assert(all == verified);
}

/// Importing a card from a text is reading the text and importing the card that it holds; a
/// text that holds none changes nothing.
pub proof fn importing_a_text(
    view: ClientView,
    budget: u64,
    text: Seq<char>,
    fingerprint: Seq<char>,
    size: DatabaseSize,
)
    ensures
        match parsed_card(text) {
            Ok(card) => match card_import(view, budget, card, fingerprint, size) {
                Ok(changes) => text_import(view, budget, text, fingerprint, size) == Ok::<
                    Seq<ClientChangeView>,
                    EngineError,
                >(changes),
                Err(error) => text_import(view, budget, text, fingerprint, size) == Err::<
                    Seq<ClientChangeView>,
                    EngineError,
                >(EngineError::Store(error)),
            },
            Err(error) => text_import(view, budget, text, fingerprint, size) == Err::<
                Seq<ClientChangeView>,
                EngineError,
            >(EngineError::Store(error)),
        },
{
}

/// What is meant for somebody is done exactly where they are a contact whose card is read
/// back, and then as it would be.
pub proof fn only_for_contacts(
    view: ClientView,
    user: UserId,
    plan: Result<Seq<ClientChangeView>, EngineError>,
)
    ensures
        for_contact(view, user, plan) is Ok <==> plan is Ok && view.contacts.contains_key(user)
            && parsed_card(hex_text(view.contacts[user].card)) is Ok,
        for_contact(view, user, plan) is Ok ==> for_contact(view, user, plan) == plan,
{
}

/// Bytes are taken as a message exactly where they are read and written back as they are.
pub proof fn only_canonical_bytes(rewritten: Option<Seq<u8>>, bytes: Seq<u8>)
    ensures
        match wire_check(rewritten, bytes) {
            Ok(()) => rewritten == Some(bytes),
            Err(WireFault::Unreadable) => rewritten is None,
            Err(WireFault::Noncanonical) => rewritten is Some && rewritten != Some(bytes),
        },
{
}

/// A package that answers a request for one is taken exactly where its bytes are read and
/// written back as they are, and the member it names is the recipient, as the contact
/// that they are. Nothing else that is answered needs such a test.
pub proof fn judging_an_answer(view: ClientView, request: RequestView, response: ResponseView)
    ensures
        match (request, response) {
            (
                RequestView::ReserveKeyPackage { recipient },
                ResponseView::KeyPackage { package, .. },
            ) => package_verdict(view, request, response) is Ok <==> mls_rewritten(package) == Some(
                package,
            ) && (mls_package_member(package) matches Some((basic, key)) && is_contact(
                view,
                MemberIdentityView { basic, signature_key: key },
            ) && basic == Some(recipient@)),
            _ => package_verdict(view, request, response) is Ok,
        },
{
    match (request, response) {
        (
            RequestView::ReserveKeyPackage { recipient },
            ResponseView::KeyPackage { package, .. },
        ) => {
            trusting_a_package(
                view,
                wire_check(mls_rewritten(package), package),
                named_member(package),
                recipient,
            );
        },
        _ => {},
    }
}

/// The members of a group are verified exactly where each is a contact, and a user is one
/// of them exactly where one has that name.
pub proof fn judging_a_roster(view: ClientView, members: Seq<MemberIdentityView>, user: UserId)
    ensures
        roster_verified(view, members) <==> forall|i: int|
            0 <= i < members.len() ==> is_contact(view, #[trigger] members[i]),
        is_member(members, user) <==> exists|i: int|
            0 <= i < members.len() && (#[trigger] members[i]).basic == Some(user@),
{
    assert forall|i: int| 0 <= i < members.len() implies is_contact(view, #[trigger] members[i]) == (
    verified_member(view, members[i]) is Ok) by {
        trusting_a_member(view, members[i]);
    }
    if roster_verified(view, members) {
        assert forall|i: int| 0 <= i < members.len() implies is_contact(
            view,
            #[trigger] members[i],
        ) by {
            assert(verified_member(view, members[i]) is Ok);
        }
    }
}

} // verus!
