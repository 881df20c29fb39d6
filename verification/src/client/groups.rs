//! Group messages: what of them can be judged outside the group library, and what
//! is done with what it finds in them.
use vstd::prelude::*;
use crate::bytes::same_slices;
use crate::client::contacts::{
    verified_member, MemberIdentity, MemberIdentityView, VerifiedIdentityProvider,
};
use crate::client::errors::{StoreDefect, StoreError};
use crate::client::store::ClientStore;
use crate::client::tables::ClientView;
use crate::delivery::{bytes_deep_view, copy_bytes, Event, EventView, MlsContentType};
use crate::ids::{RoomId, UserId};
use crate::protocol::big_endian;
use crate::transcripts::{event_authenticated_data, event_data};

verus! {

/// The most groups that are kept in memory.
pub const MAX_CACHED_GROUPS: usize = 8;

/// A long-lived signing key pair of a group member.
#[derive(Debug, PartialEq, Eq)]
pub struct MlsKeyMaterial {
    pub public: Vec<u8>,
    pub secret: Vec<u8>,
}

impl Clone for MlsKeyMaterial {
    fn clone(&self) -> (copy: MlsKeyMaterial)
        ensures
            copy.public@ == self.public@,
            copy.secret@ == self.secret@,
    {
        MlsKeyMaterial { public: copy_bytes(&self.public), secret: copy_bytes(&self.secret) }
    }
}

/// Whether two byte sequences are a key pair in form: a public key of 32 bytes, and
/// a secret of 32 bytes with the public key behind it.
pub open spec fn key_pair_form(public: Seq<u8>, secret: Seq<u8>) -> bool {
    &&& public.len() == 32
    &&& secret.len() == 64
    &&& secret.subrange(32, 64) == public
}

/// `mls_rs_core::crypto::CipherSuiteProvider::signature_key_generate` of AWS-LC for
/// the suite with Curve25519 and AES-128, first the public key. The public key has
/// 32 bytes; the secret key has 64, of which the last 32 are the public key. The
/// first 32 come from AWS-LC's random numbers, so nothing more is said of them, nor
/// when there are no keys.
#[verifier::external_body]
fn signature_key_generate() -> (result: Option<(Vec<u8>, Vec<u8>)>)
    ensures
        result matches Some((public, secret)) ==> key_pair_form(public@, secret@),
{
    let crypto = mls_rs_crypto_awslc::AwsLcCryptoProvider::default();
    let suite = mls_rs::CipherSuite::CURVE25519_AES128;
    let provider = mls_rs_core::crypto::CryptoProvider::cipher_suite_provider(&crypto, suite)?;
    match mls_rs_core::crypto::CipherSuiteProvider::signature_key_generate(&provider) {
        Ok((secret, public)) => Some((public.as_bytes().to_vec(), secret.as_bytes().to_vec())),
        Err(_) => None,
    }
}

/// Why no keys were made.
#[derive(Clone, Copy, Debug, PartialEq, Eq, Structural)]
pub struct KeyGenerationFailed;

/// What generated keys, first the public one, are kept as.
pub fn key_material(keys: Option<(Vec<u8>, Vec<u8>)>) -> (result: Result<
    MlsKeyMaterial,
    KeyGenerationFailed,
>)
    ensures
        match keys {
            Some((public, secret)) => result matches Ok(material) && material.public == public
                && material.secret == secret,
            None => result == Err::<MlsKeyMaterial, KeyGenerationFailed>(KeyGenerationFailed),
        },
{
    match keys {
        Some((public, secret)) => Ok(MlsKeyMaterial { public, secret }),
        None => Err(KeyGenerationFailed),
    }
}

/// A fresh key pair.
pub fn generate_key_material() -> (result: Result<MlsKeyMaterial, KeyGenerationFailed>)
    ensures
        result matches Ok(material) ==> key_pair_form(material.public@, material.secret@),
{
    key_material(signature_key_generate())
}

/// The bytes of the group message that `bytes` are read as, if they are read as
/// one and it can be written.
pub uninterp spec fn mls_rewritten(bytes: Seq<u8>) -> Option<Seq<u8>>;

/// The epoch of the group message that `bytes` are read as, if they are read as
/// one that has an epoch.
pub uninterp spec fn mls_epoch(bytes: Seq<u8>) -> Option<u64>;

/// The basic identifier, where there is one, and the signing key of the member whose key
/// package `bytes` are read as, if they are read as one.
pub uninterp spec fn mls_package_member(bytes: Seq<u8>) -> Option<(Option<Seq<u8>>, Seq<u8>)>;

/// `mls_rs::MlsMessage::to_bytes` of what `mls_rs::MlsMessage::from_bytes` reads.
/// What is trusted: the result depends on the bytes alone.
#[verifier::external_body]
fn rewrite_message(bytes: &[u8]) -> (result: Option<Vec<u8>>)
    ensures
        result.deep_view() == mls_rewritten(bytes@),
{
    mls_rs::MlsMessage::from_bytes(bytes).ok()?.to_bytes().ok()
}

/// `mls_rs::MlsMessage::epoch` of what `mls_rs::MlsMessage::from_bytes` reads. What
/// is trusted: the result depends on the bytes alone.
#[verifier::external_body]
fn message_epoch(bytes: &[u8]) -> (result: Option<u64>)
    ensures
        result == mls_epoch(bytes@),
{
    mls_rs::MlsMessage::from_bytes(bytes).ok()?.epoch()
}

/// `mls_rs::KeyPackage::signing_identity` of what `mls_rs::MlsMessage::from_bytes`
/// reads. What is trusted: the result depends on the bytes alone.
#[verifier::external_body]
fn package_member(bytes: &[u8]) -> (result: Option<MemberIdentity>)
    ensures
        match result {
            Some(member) => mls_package_member(bytes@) == Some(
                (member.basic.deep_view(), member.signature_key@),
            ),
            None => mls_package_member(bytes@) is None,
        },
{
    let message = mls_rs::MlsMessage::from_bytes(bytes).ok()?;
    let identity = message.as_key_package()?.signing_identity();
    Some(MemberIdentity {
        basic: identity.credential.as_basic().map(|basic| basic.identifier.clone()),
        signature_key: identity.signature_key.as_bytes().to_vec(),
    })
}

/// Why bytes are not taken for a group message.
#[derive(Clone, Copy, Debug, PartialEq, Eq, Structural)]
pub enum WireFault {
    /// They are not read as one.
    Unreadable,
    /// It would be written otherwise.
    Noncanonical,
}

/// Whether bytes that are read as a group message are the bytes of that message.
pub open spec fn wire_check(rewritten: Option<Seq<u8>>, bytes: Seq<u8>) -> Result<(), WireFault> {
    match rewritten {
        None => Err(WireFault::Unreadable),
        Some(canonical) => if canonical == bytes {
            Ok(())
        } else {
            Err(WireFault::Noncanonical)
        },
    }
}

/// Whether `bytes` are exactly what the message that they are read as is written
/// as.
pub fn check_rewritten(rewritten: &Option<Vec<u8>>, bytes: &[u8]) -> (result: Result<(), WireFault>)
    ensures
        result == wire_check(rewritten.deep_view(), bytes@),
{
    match rewritten {
        None => Err(WireFault::Unreadable),
        Some(canonical) => {
            proof {
                bytes_deep_view(*canonical);
            }
            if same_slices(canonical.as_slice(), bytes) {
                Ok(())
            } else {
                Err(WireFault::Noncanonical)
            }
        },
    }
}

/// Whether bytes are a group message in its one form.
pub fn from_wire(bytes: &[u8]) -> (result: Result<(), WireFault>)
    ensures
        result == wire_check(mls_rewritten(bytes@), bytes@),
{
    check_rewritten(&rewrite_message(bytes), bytes)
}

/// Why a key package is not used.
#[derive(Clone, Copy, Debug, PartialEq, Eq, Structural)]
pub enum PackageFault {
    Wire(WireFault),
    NotAPackage,
    Member(StoreError),
    /// It is of another member than the one that was asked for.
    Target,
}

/// Whether a key package is of a recipient whose keys are verified.
pub open spec fn package_check(
    view: ClientView,
    wire: Result<(), WireFault>,
    member: Option<MemberIdentityView>,
    recipient: UserId,
) -> Result<(), PackageFault> {
    match (wire, member) {
        (Err(fault), _) => Err(PackageFault::Wire(fault)),
        (_, None) => Err(PackageFault::NotAPackage),
        (_, Some(member)) => match verified_member(view, member) {
            Err(error) => Err(PackageFault::Member(error)),
            Ok(user) => if user == recipient@ {
                Ok(())
            } else {
                Err(PackageFault::Target)
            },
        },
    }
}

/// Whether a key package, of which the form and the member are known, is of a
/// recipient whose keys are verified.
pub fn check_package_member(
    store: &ClientStore,
    wire: Result<(), WireFault>,
    member: &Option<MemberIdentity>,
    recipient: UserId,
) -> (result: Result<(), PackageFault>)
    ensures
        result == package_check(store@, wire, member.deep_view(), recipient),
{
    match wire {
        Ok(()) => {},
        Err(fault) => return Err(PackageFault::Wire(fault)),
    }
    let member = match member {
        Some(member) => member,
        None => return Err(PackageFault::NotAPackage),
    };
    match VerifiedIdentityProvider(store).verify(member) {
        Err(error) => Err(PackageFault::Member(error)),
        Ok(user) => if same_slices(user.as_slice(), recipient.to_bytes().as_slice()) {
            Ok(())
        } else {
            Err(PackageFault::Target)
        },
    }
}

/// The member whose key package bytes are read as.
pub open spec fn named_member(bytes: Seq<u8>) -> Option<MemberIdentityView> {
    match mls_package_member(bytes) {
        Some((basic, signature_key)) => Some(MemberIdentityView { basic, signature_key }),
        None => None,
    }
}

/// Whether bytes are a key package of a recipient whose keys are verified.
pub fn check_package(store: &ClientStore, package: &[u8], recipient: UserId) -> (result: Result<
    (),
    PackageFault,
>)
    ensures
        result == package_check(
            store@,
            wire_check(mls_rewritten(package@), package@),
            named_member(package@),
            recipient,
        ),
{
    let wire = from_wire(package);
    let member = package_member(package);
    assert(member.deep_view() == named_member(package@));
    check_package_member(store, wire, &member, recipient)
}

/// What a group message turned out to be.
#[derive(Debug, PartialEq, Eq)]
pub enum Processed {
    Application { plaintext: Vec<u8>, author: Vec<u8> },
    Commit { epoch: u64 },
    Proposal { epoch: u64 },
    Ignored,
}

/// What a [`Processed`] holds.
#[verifier::ext_equal]
#[allow(inconsistent_fields)]
pub enum ProcessedView {
    Application { plaintext: Seq<u8>, author: Seq<u8> },
    Commit { epoch: u64 },
    Proposal { epoch: u64 },
    Ignored,
}

impl DeepView for Processed {
    type V = ProcessedView;

    open spec fn deep_view(&self) -> ProcessedView {
        match self {
            Processed::Application { plaintext, author } => ProcessedView::Application {
                plaintext: plaintext@,
                author: author@,
            },
            Processed::Commit { epoch } => ProcessedView::Commit { epoch: *epoch },
            Processed::Proposal { epoch } => ProcessedView::Proposal { epoch: *epoch },
            Processed::Ignored => ProcessedView::Ignored,
        }
    }
}

/// Why a group message was not taken.
#[derive(Clone, Copy, Debug, PartialEq, Eq, Structural)]
pub enum ProcessingFault {
    /// Something has to be verified first.
    Blocked,
    /// It will never be taken.
    Rejected,
}

impl ProcessingFault {
    pub fn message(&self) -> (text: &'static str)
        ensures
            text@ == match self {
                ProcessingFault::Blocked => "Blocked"@,
                ProcessingFault::Rejected => "Rejected"@,
            },
    {
        match self {
            ProcessingFault::Blocked => "Blocked",
            ProcessingFault::Rejected => "Rejected",
        }
    }
}

/// Whether the group message of an event has one form and the epoch that the
/// event claims.
pub open spec fn envelope_check(
    wire: Result<(), WireFault>,
    epoch: Option<u64>,
    claimed: u64,
) -> Result<(), ProcessingFault> {
    if wire is Err || epoch != Some(claimed) {
        Err(ProcessingFault::Rejected)
    } else {
        Ok(())
    }
}

/// Whether a group message, of which the form and the epoch are known, is what the
/// event claims.
pub fn check_claim(wire: Result<(), WireFault>, epoch: Option<u64>, claimed: u64) -> (result: Result<
    (),
    ProcessingFault,
>)
    ensures
        result == envelope_check(wire, epoch, claimed),
{
    match (wire, epoch) {
        (Ok(()), Some(epoch)) => if epoch == claimed {
            Ok(())
        } else {
            Err(ProcessingFault::Rejected)
        },
        _ => Err(ProcessingFault::Rejected),
    }
}

/// Whether the group message of an event is what the event claims.
pub fn check_envelope(event: &Event) -> (result: Result<(), ProcessingFault>)
    ensures
        result == envelope_check(
            wire_check(
                mls_rewritten(event.deep_view().operation.body),
                event.deep_view().operation.body,
            ),
            mls_epoch(event.deep_view().operation.body),
            event.operation.epoch,
        ),
{
    proof {
        bytes_deep_view(event.operation.body);
    }
    let body = event.operation.body.as_slice();
    check_claim(from_wire(body), message_epoch(body), event.operation.epoch)
}

/// Whether a group at an epoch can take a message of an epoch: later ones wait,
/// earlier ones come too late.
pub fn check_epoch(epoch: u64, current: u64) -> (result: Result<(), ProcessingFault>)
    ensures
        result == (if epoch == current {
            Ok::<(), ProcessingFault>(())
        } else if epoch > current {
            Err(ProcessingFault::Blocked)
        } else {
            Err(ProcessingFault::Rejected)
        }),
{
    if epoch == current {
        Ok(())
    } else if epoch > current {
        Err(ProcessingFault::Blocked)
    } else {
        Err(ProcessingFault::Rejected)
    }
}

/// How the group library failed on a message.
#[derive(Clone, Copy, Debug, PartialEq, Eq, Structural)]
pub enum MlsFailure {
    /// A member's identity was not verified.
    Identity,
    /// The group could not be stored.
    Storage,
    Other,
}

/// What a failure of the group library says of a message. A storage failure says
/// nothing of it.
pub fn processing_failure(failure: MlsFailure) -> (fault: Option<ProcessingFault>)
    ensures
        fault == (match failure {
            MlsFailure::Identity => Some(ProcessingFault::Blocked),
            MlsFailure::Storage => None,
            MlsFailure::Other => Some(ProcessingFault::Rejected),
        }),
{
    match failure {
        MlsFailure::Identity => Some(ProcessingFault::Blocked),
        MlsFailure::Storage => None,
        MlsFailure::Other => Some(ProcessingFault::Rejected),
    }
}

/// What the group library found in a message.
#[derive(Debug, PartialEq, Eq)]
pub enum Contents {
    Application { plaintext: Vec<u8> },
    Commit { external: bool },
    Other,
}

/// What a [`Contents`] holds.
#[verifier::ext_equal]
pub enum ContentsView {
    Application { plaintext: Seq<u8> },
    Commit { external: bool },
    Other,
}

impl DeepView for Contents {
    type V = ContentsView;

    open spec fn deep_view(&self) -> ContentsView {
        match self {
            Contents::Application { plaintext } => ContentsView::Application {
                plaintext: plaintext@,
            },
            Contents::Commit { external } => ContentsView::Commit { external: *external },
            Contents::Other => ContentsView::Other,
        }
    }
}

/// A message that the group library processed.
#[derive(Debug, PartialEq, Eq)]
pub struct Received {
    pub contents: Contents,
    /// The basic identifier of the member who sent it, as the roster named the
    /// member before the message, if it did.
    pub sender: Option<Vec<u8>>,
    pub authenticated_data: Vec<u8>,
    /// The epoch of the group after the message.
    pub epoch: u64,
}

/// What a message means that the group library processed: only what its event
/// claims of it.
pub open spec fn judged(
    event: EventView,
    contents: ContentsView,
    sender: Option<Seq<u8>>,
    authenticated_data: Seq<u8>,
    epoch: u64,
) -> Result<ProcessedView, ProcessingFault> {
    let claims_hold = sender == Some(event.sender@) && authenticated_data == event_data(
        event.operation.room,
        event.id,
        event.operation.parent,
    );
    match contents {
        ContentsView::Application { plaintext } => if event.operation.content_type
            == MlsContentType::Application && claims_hold {
            Ok(ProcessedView::Application { plaintext, author: event.sender@ })
        } else {
            Err(ProcessingFault::Rejected)
        },
        ContentsView::Commit { external } => if event.operation.content_type
            == MlsContentType::Commit && !external && claims_hold {
            Ok(ProcessedView::Commit { epoch })
        } else {
            Err(ProcessingFault::Rejected)
        },
        ContentsView::Other => Err(ProcessingFault::Rejected),
    }
}

/// What a processed message means.
pub fn judge(event: &Event, received: Received) -> (result: Result<Processed, ProcessingFault>)
    ensures
        match judged(
            event.deep_view(),
            received.contents.deep_view(),
            received.sender.deep_view(),
            received.authenticated_data@,
            received.epoch,
        ) {
            Ok(processed) => result matches Ok(got) && got.deep_view() == processed,
            Err(fault) => result matches Err(got) && got == fault,
        },
{
    let expected = event_authenticated_data(event.operation.room, event.id, event.operation.parent);
    let sender = match &received.sender {
        Some(sender) => sender,
        None => return Err(ProcessingFault::Rejected),
    };
    proof {
        bytes_deep_view(*sender);
    }
    if !same_slices(sender.as_slice(), event.sender.to_bytes().as_slice()) || !same_slices(
        received.authenticated_data.as_slice(),
        expected.as_slice(),
    ) {
        return Err(ProcessingFault::Rejected);
    }
    match received.contents {
        Contents::Application { plaintext } => if event.operation.content_type
            == MlsContentType::Application {
            Ok(Processed::Application { plaintext, author: copy_bytes(sender) })
        } else {
            Err(ProcessingFault::Rejected)
        },
        Contents::Commit { external } => if event.operation.content_type == MlsContentType::Commit
            && !external {
            Ok(Processed::Commit { epoch: received.epoch })
        } else {
            Err(ProcessingFault::Rejected)
        },
        Contents::Other => Err(ProcessingFault::Rejected),
    }
}

/// Whether every member's keys are verified.
pub open spec fn roster_verified(view: ClientView, members: Seq<MemberIdentityView>) -> bool {
    forall|i: int| 0 <= i < members.len() ==> (#[trigger] verified_member(view, members[i])) is Ok
}

/// Whether every member's keys are verified.
pub fn verify_roster(store: &ClientStore, members: &Vec<MemberIdentity>) -> (verified: bool)
    ensures
        verified == roster_verified(store@, members.deep_view()),
{
    let mut at: usize = 0;
    while at < members.len()
        invariant
            at <= members@.len(),
            forall|i: int|
                0 <= i < at ==> (#[trigger] verified_member(store@, members.deep_view()[i])) is Ok,
        decreases members.len() - at,
    {
        if VerifiedIdentityProvider(store).verify(&members[at]).is_err() {
            assert(verified_member(store@, members.deep_view()[at as int]) is Err);
            return false;
        }
        at += 1;
    }
    true
}

/// Whether a user is a member under a basic credential.
pub open spec fn is_member(members: Seq<MemberIdentityView>, user: UserId) -> bool {
    exists|i: int| 0 <= i < members.len() && (#[trigger] members[i]).basic == Some(user@)
}

/// Whether a user is a member.
pub fn contains_user(members: &Vec<MemberIdentity>, user: UserId) -> (found: bool)
    ensures
        found == is_member(members.deep_view(), user),
{
    let mut at: usize = 0;
    while at < members.len()
        invariant
            at <= members@.len(),
            forall|i: int|
                0 <= i < at ==> (#[trigger] members.deep_view()[i]).basic != Some(user@),
        decreases members.len() - at,
    {
        if let Some(identifier) = &members[at].basic {
            proof {
                bytes_deep_view(*identifier);
                assert(members.deep_view()[at as int].basic == Some(identifier@));
            }
            if same_slices(identifier.as_slice(), user.to_bytes().as_slice()) {
                return true;
            }
        } else {
            assert(members.deep_view()[at as int].basic is None);
        }
        at += 1;
    }
    false
}

/// Why a group is not joined.
#[derive(Clone, Copy, Debug, PartialEq, Eq, Structural)]
pub enum JoinFault {
    /// The welcome is for another group.
    AnotherGroup,
    /// A member's keys are not verified.
    UnverifiedMember,
    /// Who signed the welcome is not in the group.
    InviterMissing,
}

/// Whether a group that a welcome opens is the one that was announced, and whom
/// it holds.
pub fn check_joined(
    store: &ClientStore,
    room: RoomId,
    inviter: UserId,
    group_id: &[u8],
    members: &Vec<MemberIdentity>,
) -> (result: Result<(), JoinFault>)
    ensures
        result == (if group_id@ != room@ {
            Err::<(), JoinFault>(JoinFault::AnotherGroup)
        } else if !roster_verified(store@, members.deep_view()) {
            Err(JoinFault::UnverifiedMember)
        } else if !is_member(members.deep_view(), inviter) {
            Err(JoinFault::InviterMissing)
        } else {
            Ok(())
        }),
{
    if !same_slices(group_id, room.to_bytes().as_slice()) {
        return Err(JoinFault::AnotherGroup);
    }
    if !verify_roster(store, members) {
        return Err(JoinFault::UnverifiedMember);
    }
    if !contains_user(members, inviter) {
        return Err(JoinFault::InviterMissing);
    }
    Ok(())
}

/// Whether the groups in memory are dropped before another one is loaded. All
/// changes to them are on disk.
pub fn drops_cached_groups(cached: usize) -> (drops: bool)
    ensures
        drops == (cached >= 8),
{
    cached >= MAX_CACHED_GROUPS
}

/// A group may be written only within a transaction.
pub fn require_transaction(autocommit: bool) -> (result: Result<(), StoreError>)
    ensures
        result == (if autocommit {
            Err::<(), StoreError>(StoreError::InvalidData(StoreDefect::NoTransaction))
        } else {
            Ok(())
        }),
{
    if autocommit {
        Err(StoreError::InvalidData(StoreDefect::NoTransaction))
    } else {
        Ok(())
    }
}

proof fn big_endian_push(value: nat, width: nat, byte: u8)
    ensures
        big_endian(value * 256 + byte as nat, width + 1) == big_endian(value, width).push(byte),
{
    let longer = value * 256 + byte as nat;
    assert(longer / 256 == value);
    assert(longer % 256 == byte);
}

/// The number that eight bytes hold, most significant first.
fn number_of(bytes: &[u8]) -> (value: u64)
    requires
        bytes@.len() == 8,
    ensures
        big_endian(value as nat, 8) == bytes@,
{
    let mut value: u64 = 0;
    let mut limit: u64 = 1;
    let mut at: usize = 0;
    assert(bytes@.take(0) =~= big_endian(0, 0));
    while at < 7
        invariant
            at <= 7,
            bytes@.len() == 8,
            big_endian(value as nat, at as nat) == bytes@.take(at as int),
            value < limit,
            limit == (if at == 0 { 1int } else if at == 1 { 0x100 } else if at == 2 { 0x1_0000 }
                else if at == 3 { 0x100_0000 } else if at == 4 { 0x1_0000_0000 }
                else if at == 5 { 0x100_0000_0000 } else if at == 6 { 0x1_0000_0000_0000 }
                else { 0x100_0000_0000_0000 }),
        decreases 7 - at,
    {
        proof {
            big_endian_push(value as nat, at as nat, bytes@[at as int]);
            assert(bytes@.take(at + 1) =~= bytes@.take(at as int).push(bytes@[at as int]));
        }
        value = value * 256 + bytes[at] as u64;
        limit = limit * 256;
        at += 1;
    }
    proof {
        big_endian_push(value as nat, 7, bytes@[7]);
        assert(bytes@ =~= bytes@.take(7).push(bytes@[7]));
    }
    value * 256 + bytes[7] as u64
}

/// The epoch that was stored as bytes.
pub fn retained_epoch(bytes: &[u8]) -> (result: Result<u64, StoreError>)
    ensures
        match result {
            Ok(epoch) => bytes@ == big_endian(epoch as nat, 8),
            Err(error) => bytes@.len() != 8 && error == StoreError::InvalidData(
                StoreDefect::RetainedEpoch,
            ),
        },
{
    if bytes.len() != 8 {
        return Err(StoreError::InvalidData(StoreDefect::RetainedEpoch));
    }
    Ok(number_of(bytes))
}

/// The expiration of a key package that was stored as bytes.
pub fn package_expiration(bytes: &[u8]) -> (result: Result<u64, StoreError>)
    ensures
        match result {
            Ok(expiration) => bytes@ == big_endian(expiration as nat, 8),
            Err(error) => bytes@.len() != 8 && error == StoreError::InvalidData(
                StoreDefect::PackageExpiration,
            ),
        },
{
    if bytes.len() != 8 {
        return Err(StoreError::InvalidData(StoreDefect::PackageExpiration));
    }
    Ok(number_of(bytes))
}

/// How far the processing of an event has come.
#[derive(Clone, Copy, Debug, PartialEq, Eq, Structural)]
pub enum Processing {
    Opened,
    /// The event's envelope holds; its group is loaded.
    Loading,
    /// The group is at the event's epoch; it processes the message.
    Receiving,
    Closed,
}

/// What happened to an event.
#[derive(Debug, PartialEq, Eq)]
pub enum ProcessingInput {
    Start,
    /// The room's group was loaded.
    Group { epoch: u64 },
    /// The group processed the message, and has these members now.
    Message { outcome: Result<Received, MlsFailure>, members: Vec<MemberIdentity> },
}

/// What is to be done next with an event.
#[derive(Debug, PartialEq, Eq)]
pub enum ProcessingAction {
    LoadGroup,
    Process,
    /// Store the group, with what the message means.
    Keep(Processed),
    Refuse(ProcessingFault),
    /// Nothing was learned of the event.
    Fail,
}

/// What a [`ProcessingAction`] holds.
#[verifier::ext_equal]
pub enum ProcessingActionView {
    LoadGroup,
    Process,
    Keep(ProcessedView),
    Refuse(ProcessingFault),
    Fail,
}

impl DeepView for ProcessingAction {
    type V = ProcessingActionView;

    open spec fn deep_view(&self) -> ProcessingActionView {
        match self {
            ProcessingAction::LoadGroup => ProcessingActionView::LoadGroup,
            ProcessingAction::Process => ProcessingActionView::Process,
            ProcessingAction::Keep(processed) => ProcessingActionView::Keep(processed.deep_view()),
            ProcessingAction::Refuse(fault) => ProcessingActionView::Refuse(*fault),
            ProcessingAction::Fail => ProcessingActionView::Fail,
        }
    }
}

/// What a message means that the group library processed, in a group of these
/// members.
pub open spec fn outcome_action(
    view: ClientView,
    event: EventView,
    outcome: Result<Received, MlsFailure>,
    members: Seq<MemberIdentityView>,
) -> ProcessingActionView {
    match outcome {
        Err(MlsFailure::Identity) => ProcessingActionView::Refuse(ProcessingFault::Blocked),
        Err(MlsFailure::Storage) => ProcessingActionView::Fail,
        Err(MlsFailure::Other) => ProcessingActionView::Refuse(ProcessingFault::Rejected),
        Ok(received) => match judged(
            event,
            received.contents.deep_view(),
            received.sender.deep_view(),
            received.authenticated_data@,
            received.epoch,
        ) {
            Err(fault) => ProcessingActionView::Refuse(fault),
            Ok(processed) => if roster_verified(view, members) {
                ProcessingActionView::Keep(processed)
            } else {
                ProcessingActionView::Refuse(ProcessingFault::Blocked)
            },
        },
    }
}

/// The next step in the processing of an event, of which the form and the epoch of
/// the message are known.
pub open spec fn processing_step(
    view: ClientView,
    event: EventView,
    wire: Result<(), WireFault>,
    epoch: Option<u64>,
    state: Processing,
    input: ProcessingInput,
) -> (Processing, ProcessingActionView) {
    match (state, input) {
        (Processing::Opened, ProcessingInput::Start) => match envelope_check(
            wire,
            epoch,
            event.operation.epoch,
        ) {
            Ok(()) => (Processing::Loading, ProcessingActionView::LoadGroup),
            Err(fault) => (Processing::Closed, ProcessingActionView::Refuse(fault)),
        },
        (Processing::Loading, ProcessingInput::Group { epoch: current }) => if event.operation.epoch
            == current {
            (Processing::Receiving, ProcessingActionView::Process)
        } else if event.operation.epoch > current {
            (Processing::Closed, ProcessingActionView::Refuse(ProcessingFault::Blocked))
        } else {
            (Processing::Closed, ProcessingActionView::Refuse(ProcessingFault::Rejected))
        },
        (Processing::Receiving, ProcessingInput::Message { outcome, members }) => (
            Processing::Closed,
            outcome_action(view, event, outcome, members.deep_view()),
        ),
        _ => (Processing::Closed, ProcessingActionView::Fail),
    }
}

/// Takes the processing of an event one step on.
pub fn process_bound(
    store: &ClientStore,
    event: &Event,
    state: Processing,
    input: ProcessingInput,
) -> (next: (Processing, ProcessingAction))
    ensures
        (next.0, next.1.deep_view()) == processing_step(
            store@,
            event.deep_view(),
            wire_check(
                mls_rewritten(event.deep_view().operation.body),
                event.deep_view().operation.body,
            ),
            mls_epoch(event.deep_view().operation.body),
            state,
            input,
        ),
{
    match (state, input) {
        (Processing::Opened, ProcessingInput::Start) => match check_envelope(event) {
            Ok(()) => (Processing::Loading, ProcessingAction::LoadGroup),
            Err(fault) => (Processing::Closed, ProcessingAction::Refuse(fault)),
        },
        (Processing::Loading, ProcessingInput::Group { epoch }) => match check_epoch(
            event.operation.epoch,
            epoch,
        ) {
            Ok(()) => (Processing::Receiving, ProcessingAction::Process),
            Err(fault) => (Processing::Closed, ProcessingAction::Refuse(fault)),
        },
        (Processing::Receiving, ProcessingInput::Message { outcome, members }) => {
            let action = match outcome {
                Err(failure) => match processing_failure(failure) {
                    Some(fault) => ProcessingAction::Refuse(fault),
                    None => ProcessingAction::Fail,
                },
                Ok(received) => match judge(event, received) {
                    Err(fault) => ProcessingAction::Refuse(fault),
                    Ok(processed) => if verify_roster(store, &members) {
                        ProcessingAction::Keep(processed)
                    } else {
                        ProcessingAction::Refuse(ProcessingFault::Blocked)
                    },
                },
            };
            (Processing::Closed, action)
        },
        _ => (Processing::Closed, ProcessingAction::Fail),
    }
}

/// A message is taken only for what its event claims: its sender is the sender,
/// and it was made for this room, this event and this head.
pub proof fn processed_message_is_bound(
    event: EventView,
    contents: ContentsView,
    sender: Option<Seq<u8>>,
    authenticated_data: Seq<u8>,
    epoch: u64,
)
    requires
        judged(event, contents, sender, authenticated_data, epoch) is Ok,
    ensures
        sender == Some(event.sender@),
        authenticated_data == event_data(event.operation.room, event.id, event.operation.parent),
        judged(event, contents, sender, authenticated_data, epoch)->Ok_0 matches ProcessedView::Application {
            author,
            ..
        }
            ==> author == event.sender@,
{
}

/// A message is kept only after its envelope held and its group was at its epoch,
/// from the sender and for the place in the room that its event claims, and in a
/// group of which every member is verified.
pub proof fn kept_event_is_bound(
    view: ClientView,
    event: EventView,
    wire: Result<(), WireFault>,
    epoch: Option<u64>,
    start: ProcessingInput,
    group: ProcessingInput,
    message: ProcessingInput,
)
    ensures
        ({
            let loading = processing_step(view, event, wire, epoch, Processing::Opened, start).0;
            let receiving = processing_step(view, event, wire, epoch, loading, group).0;
            let last = processing_step(view, event, wire, epoch, receiving, message).1;
            last is Keep ==> {
                &&& envelope_check(wire, epoch, event.operation.epoch) is Ok
                &&& group == (ProcessingInput::Group { epoch: event.operation.epoch })
                &&& message is Message
                &&& message->outcome is Ok
                &&& message->outcome->Ok_0.sender.deep_view() == Some(event.sender@)
                &&& message->outcome->Ok_0.authenticated_data@ == event_data(
                    event.operation.room,
                    event.id,
                    event.operation.parent,
                )
                &&& roster_verified(view, message->members.deep_view())
            }
        }),
{
}

} // verus!
