//! Why the client's store refuses.
use vstd::prelude::*;
use vstd::string::StringExecFns;
use crate::text::{decimal, to_decimal};

verus! {

/// What is wrong with stored or offered data.
#[derive(Clone, Copy, Debug, PartialEq, Eq, Structural)]
pub enum StoreDefect {
    InvalidBudget,
    BudgetRange,
    ForeignTransaction,
    NestedTransaction,
    IdentityRandomness,
    EnvelopeReused,
    SequenceRange,
    AttemptReused,
    MlsIdentityReplaced,
    RoomName,
    MessageIdLength,
    RoomIdLength,
    UserIdLength,
    IdentitySeed,
    MlsIdentityMissing,
    MlsPublicKey,
    CardSize,
    CardEncoding,
    CardVersion,
    CardSignature,
    Fingerprint,
    FingerprintMismatch,
    PinChanged,
    NonBasicCredential,
    CredentialLength,
    UnverifiedMember,
    MemberKeyChanged,
    ExternalSender,
    NoTransaction,
    RetainedEpoch,
    PackageExpiration,
}

impl StoreDefect {
    pub open spec fn text(self) -> Seq<char> {
        match self {
            StoreDefect::InvalidBudget => "invalid client storage budget"@,
            StoreDefect::BudgetRange => "client storage budget out of range"@,
            StoreDefect::ForeignTransaction => "transaction belongs to another worker"@,
            StoreDefect::NestedTransaction => "nested client transaction"@,
            StoreDefect::IdentityRandomness => "identity randomness failed"@,
            StoreDefect::EnvelopeReused => "received event ID reused with different envelope"@,
            StoreDefect::SequenceRange => "message sequence out of range"@,
            StoreDefect::AttemptReused => "attempt ID reused with different payload"@,
            StoreDefect::MlsIdentityReplaced => "MLS identity replacement is unsupported"@,
            StoreDefect::RoomName => "invalid room name"@,
            StoreDefect::MessageIdLength => "stored message ID has wrong length"@,
            StoreDefect::RoomIdLength => "stored room ID has wrong length"@,
            StoreDefect::UserIdLength => "stored user ID has wrong length"@,
            StoreDefect::IdentitySeed => "invalid identity seed"@,
            StoreDefect::MlsIdentityMissing => "MLS identity missing"@,
            StoreDefect::MlsPublicKey => "invalid MLS public key"@,
            StoreDefect::CardSize => "invalid contact card size"@,
            StoreDefect::CardEncoding => "invalid contact encoding"@,
            StoreDefect::CardVersion => "unsupported contact card version"@,
            StoreDefect::CardSignature => "invalid contact signature"@,
            StoreDefect::Fingerprint => "invalid fingerprint"@,
            StoreDefect::FingerprintMismatch => "independent contact fingerprint does not match"@,
            StoreDefect::PinChanged => "contact keys changed; pin preserved"@,
            StoreDefect::NonBasicCredential => "non-basic credential"@,
            StoreDefect::CredentialLength => "MLS credential must be a Grotto UserId"@,
            StoreDefect::UnverifiedMember => "unverified group member"@,
            StoreDefect::MemberKeyChanged => "MLS signing key differs from verified contact"@,
            StoreDefect::ExternalSender => "external MLS senders are unsupported"@,
            StoreDefect::NoTransaction => "MLS write requires an application transaction"@,
            StoreDefect::RetainedEpoch => "invalid retained epoch"@,
            StoreDefect::PackageExpiration => "invalid package expiration"@,
        }
    }

    pub fn message(&self) -> (text: &'static str)
        ensures
            text@ == self.text(),
    {
        match self {
            StoreDefect::InvalidBudget => "invalid client storage budget",
            StoreDefect::BudgetRange => "client storage budget out of range",
            StoreDefect::ForeignTransaction => "transaction belongs to another worker",
            StoreDefect::NestedTransaction => "nested client transaction",
            StoreDefect::IdentityRandomness => "identity randomness failed",
            StoreDefect::EnvelopeReused => "received event ID reused with different envelope",
            StoreDefect::SequenceRange => "message sequence out of range",
            StoreDefect::AttemptReused => "attempt ID reused with different payload",
            StoreDefect::MlsIdentityReplaced => "MLS identity replacement is unsupported",
            StoreDefect::RoomName => "invalid room name",
            StoreDefect::MessageIdLength => "stored message ID has wrong length",
            StoreDefect::RoomIdLength => "stored room ID has wrong length",
            StoreDefect::UserIdLength => "stored user ID has wrong length",
            StoreDefect::IdentitySeed => "invalid identity seed",
            StoreDefect::MlsIdentityMissing => "MLS identity missing",
            StoreDefect::MlsPublicKey => "invalid MLS public key",
            StoreDefect::CardSize => "invalid contact card size",
            StoreDefect::CardEncoding => "invalid contact encoding",
            StoreDefect::CardVersion => "unsupported contact card version",
            StoreDefect::CardSignature => "invalid contact signature",
            StoreDefect::Fingerprint => "invalid fingerprint",
            StoreDefect::FingerprintMismatch => "independent contact fingerprint does not match",
            StoreDefect::PinChanged => "contact keys changed; pin preserved",
            StoreDefect::NonBasicCredential => "non-basic credential",
            StoreDefect::CredentialLength => "MLS credential must be a Grotto UserId",
            StoreDefect::UnverifiedMember => "unverified group member",
            StoreDefect::MemberKeyChanged => "MLS signing key differs from verified contact",
            StoreDefect::ExternalSender => "external MLS senders are unsupported",
            StoreDefect::NoTransaction => "MLS write requires an application transaction",
            StoreDefect::RetainedEpoch => "invalid retained epoch",
            StoreDefect::PackageExpiration => "invalid package expiration",
        }
    }
}

/// Why the store did not do what was asked.
#[derive(Clone, Copy, Debug, PartialEq, Eq, Structural)]
pub enum StoreError {
    /// The storage budget is used up.
    Quota,
    /// The database failed, or a constraint of it would have been broken.
    Database,
    /// The file could not be used.
    Io,
    /// The store is closed to all further work.
    LockPoisoned,
    InvalidData(StoreDefect),
    UnsupportedSchema(i64),
}

impl StoreError {
    pub open spec fn text(self) -> Seq<char> {
        match self {
            StoreError::Quota => "client storage budget exhausted; new data rejected"@,
            StoreError::Database => "client store database error"@,
            StoreError::Io => "opening private client database"@,
            StoreError::LockPoisoned => "client store lock poisoned"@,
            StoreError::InvalidData(defect) => "invalid client store data: "@ + defect.text(),
            StoreError::UnsupportedSchema(version) => if version < 0 {
                "unsupported client store schema version -"@ + decimal((-version) as nat)
            } else {
                "unsupported client store schema version "@ + decimal(version as nat)
            },
        }
    }

    pub fn message(&self) -> (text: String)
        ensures
            text@ == self.text(),
    {
        match self {
            StoreError::Quota => String::from_str(
                "client storage budget exhausted; new data rejected",
            ),
            StoreError::Database => String::from_str("client store database error"),
            StoreError::Io => String::from_str("opening private client database"),
            StoreError::LockPoisoned => String::from_str("client store lock poisoned"),
            StoreError::InvalidData(defect) => {
                let mut text = String::from_str("invalid client store data: ");
                text.append(defect.message());
                text
            },
            StoreError::UnsupportedSchema(version) => {
                if *version < 0 {
                    let mut text = String::from_str("unsupported client store schema version -");
                    let magnitude: u64 = (-(*version as i128)) as u64;
                    text.append(to_decimal(magnitude).as_str());
                    text
                } else {
                    let mut text = String::from_str("unsupported client store schema version ");
                    text.append(to_decimal(*version as u64).as_str());
                    text
                }
            },
        }
    }
}

} // verus!
