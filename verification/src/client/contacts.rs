//! Contacts whose keys were compared out of band. The relay is never a source of
//! trust.
use vstd::prelude::*;
use crate::bytes::{same_slices, to_array};
use crate::client::errors::{StoreDefect, StoreError};
use crate::client::identity::ClientIdentity;
use crate::client::store::{gives, one_change, unchanged, within_budget, ClientStore, DatabaseSize};
use crate::client::tables::{ClientChange, ClientChangeView, ClientView};
use crate::crypto::{
    digest, neutral_point, public_key_of, sha256, signature_by, signature_valid, verify_strict,
};
use crate::delivery::bytes_deep_view;
use crate::ids::UserId;
use crate::order::{in_text_order, insert_in_order, text_before, text_order};
use crate::protocol::{cert_fingerprint_sha256_hex, parse_fingerprint_hex, parsed_fingerprint};
use crate::text::{hex_round_trip, hex_text, parse_hex, parsed_hex, to_hex, HexError};
use crate::wire::Wire;
use vstd::slice::slice_subrange;

verus! {

/// How many bytes a card has.
pub const CARD_BYTES: usize = 145;

/// The text `GROTTO-CONTACT-V1` and a zero byte.
pub open spec fn contact_domain() -> Seq<u8> {
    seq![71u8, 82, 79, 84, 84, 79, 45, 67, 79, 78, 84, 65, 67, 84, 45, 86, 49, 0]
}

/// A user's two public keys, signed with the first of them.
#[derive(Clone, Copy, Debug, PartialEq, Eq)]
pub struct ContactCard {
    pub user: UserId,
    pub transport_key: [u8; 32],
    pub mls_key: [u8; 32],
    pub signature: [u8; 64],
}

/// What a [`ContactCard`] holds.
#[verifier::ext_equal]
pub struct ContactCardView {
    pub user: UserId,
    pub transport_key: Seq<u8>,
    pub mls_key: Seq<u8>,
    pub signature: Seq<u8>,
}

impl DeepView for ContactCard {
    type V = ContactCardView;

    open spec fn deep_view(&self) -> ContactCardView {
        ContactCardView {
            user: self.user,
            transport_key: self.transport_key@,
            mls_key: self.mls_key@,
            signature: self.signature@,
        }
    }
}

/// What the signature of a card signs.
pub open spec fn card_transcript(user: UserId, transport_key: Seq<u8>, mls_key: Seq<u8>) -> Seq<u8> {
    contact_domain() + user@ + transport_key + mls_key
}

/// The bytes of a card.
pub open spec fn card_bytes(card: ContactCardView) -> Seq<u8> {
    seq![1u8] + card.user@ + card.transport_key + card.mls_key + card.signature
}

/// Whether a card is signed with its own transport key.
pub open spec fn card_signed(card: ContactCardView) -> bool {
    signature_valid(
        card.transport_key,
        card_transcript(card.user, card.transport_key, card.mls_key),
        card.signature,
    )
}

/// The fields in the bytes of a card.
pub open spec fn card_fields(bytes: Seq<u8>) -> ContactCardView {
    ContactCardView {
        user: UserId::of(bytes.subrange(1, 17)),
        transport_key: bytes.subrange(17, 49),
        mls_key: bytes.subrange(49, 81),
        signature: bytes.subrange(81, 145),
    }
}

/// The card that a text writes: two hexadecimal digits a byte, of which a plus sign
/// may stand for the first.
pub open spec fn parsed_card(text: Seq<char>) -> Result<ContactCardView, StoreError> {
    match parsed_hex(text, CARD_BYTES as nat, true) {
        Err(HexError::Length) => Err(StoreError::InvalidData(StoreDefect::CardSize)),
        Err(HexError::Digit) => Err(StoreError::InvalidData(StoreDefect::CardEncoding)),
        Ok(bytes) => if bytes[0] != 1 {
            Err(StoreError::InvalidData(StoreDefect::CardVersion))
        } else if !card_signed(card_fields(bytes)) {
            Err(StoreError::InvalidData(StoreDefect::CardSignature))
        } else {
            Ok(card_fields(bytes))
        },
    }
}

/// The card of an identity.
pub open spec fn own_card(
    user: UserId,
    seed: Seq<u8>,
    mls_identity: Option<(Seq<u8>, Seq<u8>)>,
) -> Result<ContactCardView, StoreError> {
    match mls_identity {
        None => Err(StoreError::InvalidData(StoreDefect::MlsIdentityMissing)),
        Some((mls_key, _)) => if mls_key.len() != 32 {
            Err(StoreError::InvalidData(StoreDefect::MlsPublicKey))
        } else {
            Ok(
                ContactCardView {
                    user,
                    transport_key: public_key_of(seed),
                    mls_key,
                    signature: signature_by(
                        seed,
                        card_transcript(user, public_key_of(seed), mls_key),
                    ),
                },
            )
        },
    }
}

/// What is written when a card is accepted under a fingerprint that came another
/// way. A pin that is there is never replaced.
pub open spec fn card_import(
    view: ClientView,
    budget: u64,
    card: ContactCardView,
    fingerprint: Seq<char>,
    size: DatabaseSize,
) -> Result<Seq<ClientChangeView>, StoreError> {
    match parsed_fingerprint(fingerprint) {
        Err(_) => Err(StoreError::InvalidData(StoreDefect::Fingerprint)),
        Ok(expected) => if expected != sha256(card_bytes(card)) {
            Err(StoreError::InvalidData(StoreDefect::FingerprintMismatch))
        } else if !card_signed(card) {
            Err(StoreError::InvalidData(StoreDefect::CardSignature))
        } else if view.contacts.contains_key(card.user) {
            if view.contacts[card.user].card == card_bytes(card) {
                Ok(unchanged())
            } else {
                Err(StoreError::InvalidData(StoreDefect::PinChanged))
            }
        } else if !within_budget(size, CARD_BYTES as nat, budget) {
            Err(StoreError::Quota)
        } else {
            Ok(
                seq![
                    ClientChangeView::Contact {
                        user: card.user,
                        mls_key: card.mls_key,
                        card: card_bytes(card),
                    },
                ],
            )
        },
    }
}

impl ContactCard {
    /// What the signature signs.
    pub fn transcript(&self) -> (transcript: Vec<u8>)
        ensures
            transcript@ == card_transcript(self.user, self.transport_key@, self.mls_key@),
    {
        let domain: [u8; 18] = [
            71,
            82,
            79,
            84,
            84,
            79,
            45,
            67,
            79,
            78,
            84,
            65,
            67,
            84,
            45,
            86,
            49,
            0,
        ];
        let mut transcript: Vec<u8> = Vec::new();
        transcript.extend_from_slice(domain.as_slice());
        assert(transcript@ =~= contact_domain());
        self.user.put(&mut transcript);
        transcript.extend_from_slice(self.transport_key.as_slice());
        transcript.extend_from_slice(self.mls_key.as_slice());
        transcript
    }

    /// The card of the own identity. Others can read it again, unless the first half
    /// of its signature is the neutral point.
    pub fn own(store: &ClientStore, identity: &ClientIdentity) -> (result: Result<
        ContactCard,
        StoreError,
    >)
        ensures
            match own_card(identity.user(), identity.secret(), store@.mls_identity) {
                Ok(card) => result matches Ok(got) && got.deep_view() == card,
                Err(error) => result matches Err(got) && got == error,
            },
            result matches Ok(card) && card.signature@.take(32) != neutral_point()
                ==> card_signed(result->Ok_0.deep_view()) && parsed_card(
                hex_text(card_bytes(result->Ok_0.deep_view())),
            ) == Ok::<ContactCardView, StoreError>(result->Ok_0.deep_view()),
    {
        let (public, _) = match store.load_mls_identity() {
            Some(keys) => keys,
            None => return Err(StoreError::InvalidData(StoreDefect::MlsIdentityMissing)),
        };
        if public.len() != 32 {
            return Err(StoreError::InvalidData(StoreDefect::MlsPublicKey));
        }
        let mut card = ContactCard {
            user: identity.user_id(),
            transport_key: *identity.verifying_key().as_bytes(),
            mls_key: to_array(public.as_slice()),
            signature: [0u8; 64],
        };
        card.signature = *identity.sign(card.transcript().as_slice()).as_bytes();
        proof {
            card_round_trip(card);
        }
        Ok(card)
    }

    pub fn bytes(&self) -> (bytes: Vec<u8>)
        ensures
            bytes@ == card_bytes(self.deep_view()),
    {
        let mut bytes: Vec<u8> = Vec::new();
        bytes.push(1);
        assert(bytes@ =~= seq![1u8]);
        self.user.put(&mut bytes);
        bytes.extend_from_slice(self.transport_key.as_slice());
        bytes.extend_from_slice(self.mls_key.as_slice());
        bytes.extend_from_slice(self.signature.as_slice());
        bytes
    }

    pub fn encode(&self) -> (text: String)
        ensures
            text@ == hex_text(card_bytes(self.deep_view())),
    {
        to_hex(self.bytes().as_slice())
    }

    pub fn fingerprint(&self) -> (text: String)
        ensures
            text@ == hex_text(sha256(card_bytes(self.deep_view()))),
    {
        cert_fingerprint_sha256_hex(self.bytes().as_slice())
    }

    /// Whether the card is signed with its own transport key.
    pub fn is_signed(&self) -> (signed: bool)
        ensures
            signed == card_signed(self.deep_view()),
    {
        verify_strict(&self.transport_key, self.transcript().as_slice(), &self.signature)
    }

    /// Reads a card, and checks its signature.
    pub fn parse(text: &str) -> (result: Result<ContactCard, StoreError>)
        ensures
            match parsed_card(text@) {
                Ok(card) => result matches Ok(got) && got.deep_view() == card,
                Err(error) => result matches Err(got) && got == error,
            },
    {
        let bytes: [u8; CARD_BYTES] = match parse_hex::<CARD_BYTES>(text, true) {
            Ok(bytes) => bytes,
            Err(HexError::Length) => return Err(StoreError::InvalidData(StoreDefect::CardSize)),
            Err(HexError::Digit) => return Err(StoreError::InvalidData(StoreDefect::CardEncoding)),
        };
        if bytes[0] != 1 {
            return Err(StoreError::InvalidData(StoreDefect::CardVersion));
        }
        let all = bytes.as_slice();
        let user: [u8; 16] = to_array(slice_subrange(all, 1, 17));
        let card = ContactCard {
            user: UserId::from_bytes(user),
            transport_key: to_array(slice_subrange(all, 17, 49)),
            mls_key: to_array(slice_subrange(all, 49, 81)),
            signature: to_array(slice_subrange(all, 81, 145)),
        };
        assert(card.deep_view() == card_fields(bytes@));
        if !card.is_signed() {
            return Err(StoreError::InvalidData(StoreDefect::CardSignature));
        }
        Ok(card)
    }

    /// What is written when the card is accepted under a fingerprint that came
    /// another way.
    pub fn import(
        &self,
        store: &ClientStore,
        independent_fingerprint: &str,
        size: DatabaseSize,
    ) -> (result: Result<Vec<ClientChange>, StoreError>)
        ensures
            gives(
                result,
                card_import(
                    store@,
                    store.budget(),
                    self.deep_view(),
                    independent_fingerprint@,
                    size,
                ),
            ),
    {
        let expected = match parse_fingerprint_hex(independent_fingerprint) {
            Ok(expected) => expected,
            Err(_) => return Err(StoreError::InvalidData(StoreDefect::Fingerprint)),
        };
        let bytes = self.bytes();
        if !same_slices(expected.as_slice(), digest(bytes.as_slice()).as_slice()) {
            return Err(StoreError::InvalidData(StoreDefect::FingerprintMismatch));
        }
        if !self.is_signed() {
            return Err(StoreError::InvalidData(StoreDefect::CardSignature));
        }
        if let Some(row) = store.tables.contacts.get(&self.user) {
            if !same_slices(row.card.as_slice(), bytes.as_slice()) {
                return Err(StoreError::InvalidData(StoreDefect::PinChanged));
            }
            let changes: Vec<ClientChange> = Vec::new();
            assert(changes.deep_view() =~= unchanged());
            return Ok(changes);
        }
        match store.admit_new_data(CARD_BYTES, size) {
            Ok(()) => {},
            Err(error) => return Err(error),
        }
        Ok(
            one_change(
                ClientChange::Contact { user: self.user, mls_key: self.mls_key, card: bytes },
            ),
        )
    }
}

/// A member of a group as its leaf names it.
#[derive(Debug, PartialEq, Eq)]
pub struct MemberIdentity {
    /// The identifier of a basic credential, if it is one.
    pub basic: Option<Vec<u8>>,
    pub signature_key: Vec<u8>,
}

/// What a [`MemberIdentity`] holds.
#[verifier::ext_equal]
pub struct MemberIdentityView {
    pub basic: Option<Seq<u8>>,
    pub signature_key: Seq<u8>,
}

impl DeepView for MemberIdentity {
    type V = MemberIdentityView;

    open spec fn deep_view(&self) -> MemberIdentityView {
        MemberIdentityView { basic: self.basic.deep_view(), signature_key: self.signature_key@ }
    }
}

/// The contact that a member is.
pub open spec fn verified_member(view: ClientView, member: MemberIdentityView) -> Result<
    Seq<u8>,
    StoreError,
> {
    match member.basic {
        None => Err(StoreError::InvalidData(StoreDefect::NonBasicCredential)),
        Some(identifier) => if identifier.len() != 16 {
            Err(StoreError::InvalidData(StoreDefect::CredentialLength))
        } else {
            let user = UserId::of(identifier);
            if !view.contacts.contains_key(user) {
                Err(StoreError::InvalidData(StoreDefect::UnverifiedMember))
            } else if view.contacts[user].mls_key != member.signature_key {
                Err(StoreError::InvalidData(StoreDefect::MemberKeyChanged))
            } else {
                Ok(identifier)
            }
        },
    }
}

/// Takes members for who they claim to be only where their key is pinned.
pub struct VerifiedIdentityProvider<'a>(pub &'a ClientStore);

impl<'a> VerifiedIdentityProvider<'a> {
    pub fn verify(&self, member: &MemberIdentity) -> (result: Result<Vec<u8>, StoreError>)
        ensures
            match verified_member(self.0@, member.deep_view()) {
                Ok(user) => result matches Ok(got) && got@ == user,
                Err(error) => result matches Err(got) && got == error,
            },
    {
        let identifier = match &member.basic {
            Some(identifier) => identifier,
            None => return Err(StoreError::InvalidData(StoreDefect::NonBasicCredential)),
        };
        proof {
            bytes_deep_view(*identifier);
        }
        if identifier.len() != 16 {
            return Err(StoreError::InvalidData(StoreDefect::CredentialLength));
        }
        let user = UserId::from_bytes(to_array(identifier.as_slice()));
        match self.0.tables.contacts.get(&user) {
            None => Err(StoreError::InvalidData(StoreDefect::UnverifiedMember)),
            Some(row) => {
                if !same_slices(row.mls_key.as_slice(), member.signature_key.as_slice()) {
                    return Err(StoreError::InvalidData(StoreDefect::MemberKeyChanged));
                }
                Ok(crate::delivery::copy_bytes(identifier))
            },
        }
    }

    /// No sender outside a group is taken.
    pub fn validate_external_sender(&self) -> (result: Result<(), StoreError>)
        ensures
            result == Err::<(), StoreError>(StoreError::InvalidData(StoreDefect::ExternalSender)),
    {
        Err(StoreError::InvalidData(StoreDefect::ExternalSender))
    }

    /// Whether a member may take the place of another: only as itself.
    pub fn valid_successor(&self, predecessor: &MemberIdentity, successor: &MemberIdentity) -> (result:
        Result<bool, StoreError>)
        ensures
            result == (match (
                verified_member(self.0@, predecessor.deep_view()),
                verified_member(self.0@, successor.deep_view()),
            ) {
                (Err(error), _) => Err::<bool, StoreError>(error),
                (_, Err(error)) => Err(error),
                (Ok(before), Ok(after)) => Ok(
                    before == after && predecessor.signature_key@ == successor.signature_key@,
                ),
            }),
    {
        let before = match self.verify(predecessor) {
            Ok(user) => user,
            Err(error) => return Err(error),
        };
        let after = match self.verify(successor) {
            Ok(user) => user,
            Err(error) => return Err(error),
        };
        Ok(
            same_slices(before.as_slice(), after.as_slice()) && same_slices(
                predecessor.signature_key.as_slice(),
                successor.signature_key.as_slice(),
            ),
        )
    }
}

/// The verified card of a user.
pub open spec fn required_contact(view: ClientView, user: UserId) -> Result<
    ContactCardView,
    StoreError,
> {
    if view.contacts.contains_key(user) {
        parsed_card(hex_text(view.contacts[user].card))
    } else {
        Err(StoreError::Database)
    }
}

/// Whether a text is the fingerprint of the verified card of a user.
pub open spec fn fingerprint_of(view: ClientView, user: UserId, text: Seq<char>) -> bool {
    match required_contact(view, user) {
        Ok(card) => text == hex_text(sha256(card_bytes(card))),
        Err(_) => false,
    }
}

/// Whether a list holds every contact once, in the order of the identifiers, with the
/// fingerprints of their verified cards.
pub open spec fn contacts_listed(view: ClientView, contacts: Seq<(UserId, String)>) -> bool {
    &&& forall|i: int, j: int|
        0 <= i < j < contacts.len() ==> !text_before(
            hex_text((#[trigger] contacts[j]).0@),
            hex_text((#[trigger] contacts[i]).0@),
        ) && contacts[i].0 != contacts[j].0
    &&& forall|i: int|
        0 <= i < contacts.len() ==> view.contacts.contains_key((#[trigger] contacts[i]).0)
            && fingerprint_of(view, contacts[i].0, contacts[i].1@)
    &&& forall|user: UserId| #[trigger]
        view.contacts.contains_key(user) ==> exists|i: int|
            0 <= i < contacts.len() && (#[trigger] contacts[i]).0 == user
}

/// Whether a user is the first, in the order of the identifiers, whose card does
/// not verify, and why.
pub open spec fn first_unverified(view: ClientView, user: UserId, error: StoreError) -> bool {
    &&& view.contacts.contains_key(user)
    &&& required_contact(view, user) == Err::<ContactCardView, StoreError>(error)
    &&& forall|other: UserId| #[trigger]
        view.contacts.contains_key(other) && text_before(hex_text(other@), hex_text(user@))
            ==> required_contact(view, other) is Ok
}

impl ClientStore {
    /// The verified card of a user.
    pub fn require_contact(&self, user: UserId) -> (result: Result<ContactCard, StoreError>)
        ensures
            match required_contact(self@, user) {
                Ok(card) => result matches Ok(got) && got.deep_view() == card,
                Err(error) => result matches Err(got) && got == error,
            },
    {
        match self.tables.contacts.get(&user) {
            Some(row) => ContactCard::parse(to_hex(row.card.as_slice()).as_str()),
            None => Err(StoreError::Database),
        }
    }

    /// The contacts in the order of their identifiers, each with the fingerprint
    /// of its card. The first card that does not verify is the error.
    pub fn list_contacts(&self) -> (result: Result<Vec<(UserId, String)>, StoreError>)
        ensures
            match result {
                Ok(contacts) => contacts_listed(self@, contacts@),
                Err(error) => exists|user: UserId| #[trigger] first_unverified(self@, user, error),
            },
    {
        let mut sorted: Vec<(String, UserId)> = Vec::new();
        let count = self.tables.contacts.len();
        let ghost keys = self.tables.contacts.row_keys();
        let mut at: usize = 0;
        assert(keys.take(0) =~= Seq::<UserId>::empty());
        while at < count
            invariant
                at <= count,
                count == keys.len(),
                keys == self.tables.contacts.row_keys(),
                in_text_order(sorted@),
                keys.no_duplicates(),
                forall|k: int|
                    0 <= k < at ==> exists|i: int|
                        0 <= i < sorted@.len() && (#[trigger] sorted@[i]).1 == #[trigger] keys[k],
                forall|i: int|
                    0 <= i < sorted@.len() ==> keys.take(at as int).contains(
                        (#[trigger] sorted@[i]).1,
                    ),
                forall|i: int, j: int|
                    0 <= i < j < sorted@.len() ==> (#[trigger] sorted@[i]).1 != (
                    #[trigger] sorted@[j]).1,
                forall|i: int|
                    0 <= i < sorted@.len() ==> self@.contacts.contains_key((#[trigger] sorted@[i]).1)
                        && sorted@[i].0@ == hex_text(sorted@[i].1@),
            decreases count - at,
        {
            let (user, _) = self.tables.contacts.at(at);
            let ghost before = sorted@;
            let place = insert_in_order(&mut sorted, user.to_text(), *user);
            proof {
                let after = sorted@;
                let was = |i: int| if i < place { i } else { i - 1 };
                let now = |i: int| if i < place { i } else { i + 1 };
                assert(after[place as int].1 == keys[at as int]);
                let shown = keys.take(at as int);
                let longer = keys.take(at + 1);
                assert(longer =~= shown.push(keys[at as int]));
                assert(!shown.contains(keys[at as int])) by {
                    if shown.contains(keys[at as int]) {
                        let k = shown.index_of(keys[at as int]);
                        assert(keys[k] == keys[at as int]);
                    }
                }
                assert forall|i: int| 0 <= i < after.len() implies longer.contains(
                    (#[trigger] after[i]).1,
                ) by {
                    if i != place {
                        assert(after[i] == before[was(i)]);
                        let k = shown.index_of(before[was(i)].1);
                        assert(longer[k] == after[i].1);
                    } else {
                        assert(longer[at as int] == after[i].1);
                    }
                }
                assert forall|i: int, j: int| 0 <= i < j < after.len() implies (
                #[trigger] after[i]).1 != (#[trigger] after[j]).1 by {
                    if i == place {
                        assert(after[j] == before[was(j)]);
                    } else if j == place {
                        assert(after[i] == before[was(i)]);
                    } else {
                        assert(after[i] == before[was(i)]);
                        assert(after[j] == before[was(j)]);
                    }
                }
                assert forall|k: int| 0 <= k < at + 1 implies exists|i: int|
                    0 <= i < after.len() && (#[trigger] after[i]).1 == #[trigger] keys[k] by {
                    if k < at {
                        let i = choose|i: int|
                            0 <= i < before.len() && (#[trigger] before[i]).1 == keys[k];
                        assert(after[now(i)] == before[i]);
                    }
                }
                assert forall|i: int| 0 <= i < after.len() implies self@.contacts.contains_key(
                    (#[trigger] after[i]).1,
                ) && after[i].0@ == hex_text(after[i].1@) by {
                    if i != place {
                        assert(after[i] == before[was(i)]);
                    }
                }
            }
            at += 1;
        }
        proof {
            assert forall|user: UserId| #[trigger] self@.contacts.contains_key(
                user,
            ) implies exists|i: int|
                0 <= i < sorted@.len() && (#[trigger] sorted@[i]).1 == user by {
                assert(keys.contains(user));
                let k = keys.index_of(user);
                let i = choose|i: int| 0 <= i < sorted@.len() && (#[trigger] sorted@[i]).1 == keys[k];
                assert(sorted@[i].1 == user);
            }
        }
        let mut contacts: Vec<(UserId, String)> = Vec::new();
        let mut next: usize = 0;
        while next < sorted.len()
            invariant
                next <= sorted@.len(),
                contacts@.len() == next,
                in_text_order(sorted@),
                forall|i: int, j: int|
                    0 <= i < j < sorted@.len() ==> (#[trigger] sorted@[i]).1 != (
                    #[trigger] sorted@[j]).1,
                forall|i: int|
                    0 <= i < sorted@.len() ==> self@.contacts.contains_key((#[trigger] sorted@[i]).1)
                        && sorted@[i].0@ == hex_text(sorted@[i].1@),
                forall|user: UserId| #[trigger]
                    self@.contacts.contains_key(user) ==> exists|i: int|
                        0 <= i < sorted@.len() && (#[trigger] sorted@[i]).1 == user,
                forall|i: int|
                    0 <= i < next ==> (#[trigger] contacts@[i]).0 == sorted@[i].1 && fingerprint_of(
                        self@,
                        contacts@[i].0,
                        contacts@[i].1@,
                    ),
            decreases sorted.len() - next,
        {
            let user = sorted[next].1;
            match self.require_contact(user) {
                Ok(card) => contacts.push((user, card.fingerprint())),
                Err(error) => {
                    proof {
                        assert forall|other: UserId| #[trigger] self@.contacts.contains_key(other)
                            && text_before(hex_text(other@), hex_text(user@)) implies required_contact(
                            self@,
                            other,
                        ) is Ok by {
                            let i = choose|i: int|
                                0 <= i < sorted@.len() && (#[trigger] sorted@[i]).1 == other;
                            if i > next {
                                assert(!text_before(sorted@[i].0@, sorted@[next as int].0@));
                            }
                            text_order(hex_text(user@), hex_text(user@), hex_text(user@));
                            assert(contacts@[i].0 == other);
                        }
                        assert(first_unverified(self@, user, error));
                    }
                    return Err(error);
                },
            }
            next += 1;
        }
        proof {
            assert forall|i: int, j: int| 0 <= i < j < contacts@.len() implies !text_before(
                hex_text((#[trigger] contacts@[j]).0@),
                hex_text((#[trigger] contacts@[i]).0@),
            ) && contacts@[i].0 != contacts@[j].0 by {
                assert(!text_before(sorted@[j].0@, sorted@[i].0@));
                assert(sorted@[i].1 != sorted@[j].1);
            }
            assert forall|user: UserId| #[trigger] self@.contacts.contains_key(
                user,
            ) implies exists|i: int|
                0 <= i < contacts@.len() && (#[trigger] contacts@[i]).0 == user by {
                let i = choose|i: int| 0 <= i < sorted@.len() && (#[trigger] sorted@[i]).1 == user;
                assert(contacts@[i].0 == user);
            }
            assert(contacts_listed(self@, contacts@));
        }
        Ok(contacts)
    }
}

/// The fields of a card can be read from its bytes.
proof fn fields_of_bytes(card: ContactCard)
    ensures
        card_bytes(card.deep_view()).len() == CARD_BYTES,
        card_fields(card_bytes(card.deep_view())) == card.deep_view(),
{
    let bytes = card_bytes(card.deep_view());
    card.user.determined_by_bytes();
    assert(bytes.subrange(1, 17) =~= card.user@);
    assert(bytes.subrange(17, 49) =~= card.transport_key@);
    assert(bytes.subrange(49, 81) =~= card.mls_key@);
    assert(bytes.subrange(81, 145) =~= card.signature@);
}

/// A card that is exported is read back as it was, where its signature verifies;
/// no other card is read.
pub proof fn card_round_trip(card: ContactCard)
    ensures
        parsed_card(hex_text(card_bytes(card.deep_view()))) == (if card_signed(card.deep_view()) {
            Ok::<ContactCardView, StoreError>(card.deep_view())
        } else {
            Err(StoreError::InvalidData(StoreDefect::CardSignature))
        }),
{
    let bytes = card_bytes(card.deep_view());
    fields_of_bytes(card);
    hex_round_trip(bytes, true);
    assert(bytes[0] == 1);
}

/// Cards with the same bytes are the same card.
pub proof fn card_bytes_name_card(left: ContactCard, right: ContactCard)
    requires
        card_bytes(left.deep_view()) == card_bytes(right.deep_view()),
    ensures
        left.deep_view() == right.deep_view(),
{
    fields_of_bytes(left);
    fields_of_bytes(right);
}

/// Once a card is imported, its user is verified under its group key and under no
/// other, and the card is found again.
pub proof fn imported_contact_is_verified(
    view: ClientView,
    budget: u64,
    card: ContactCard,
    fingerprint: Seq<char>,
    size: DatabaseSize,
    key: Seq<u8>,
)
    requires
        !view.contacts.contains_key(card.user),
        card_import(view, budget, card.deep_view(), fingerprint, size) is Ok,
    ensures
        ({
            let changes = card_import(view, budget, card.deep_view(), fingerprint, size)->Ok_0;
            let after = crate::client::tables::client_all_applied(view, changes);
            &&& crate::client::tables::client_all_admitted(view, changes)
            &&& required_contact(after, card.user) == Ok::<ContactCardView, StoreError>(
                card.deep_view(),
            )
            &&& verified_member(
                after,
                MemberIdentityView { basic: Some(card.user@), signature_key: key },
            ) == (if key == card.mls_key@ {
                Ok::<Seq<u8>, StoreError>(card.user@)
            } else {
                Err(StoreError::InvalidData(StoreDefect::MemberKeyChanged))
            })
        }),
{
    let changes = card_import(view, budget, card.deep_view(), fingerprint, size)->Ok_0;
    reveal_with_fuel(crate::client::tables::client_all_applied, 2);
    reveal_with_fuel(crate::client::tables::client_all_admitted, 2);
    assert(changes.drop_last() =~= Seq::<ClientChangeView>::empty());
    card_round_trip(card);
    card.user.determined_by_bytes();
}

} // verus!
