//! The client's own identity.
use vstd::prelude::*;
use vstd::string::StringExecFns;
use crate::crypto::{
    own_signature_holds, public_key, public_key_of, public_key_valid, sign, signature_by,
};
use crate::files::{default_directory, DataRoot};
use crate::ids::{Ed25519PublicKeyBytes, Ed25519SignatureBytes, UserId};

verus! {

/// A user and the secret seed that they sign with.
pub struct ClientIdentity {
    user_id: UserId,
    seed: [u8; 32],
}

impl ClientIdentity {
    pub closed spec fn user(self) -> UserId {
        self.user_id
    }

    pub closed spec fn secret(self) -> Seq<u8> {
        self.seed@
    }

    pub fn from_seed(user_id: UserId, seed: [u8; 32]) -> (identity: ClientIdentity)
        ensures
            identity.user() == user_id,
            identity.secret() == seed@,
    {
        ClientIdentity { user_id, seed }
    }

    pub fn user_id(&self) -> (user: UserId)
        ensures
            user == self.user(),
    {
        self.user_id
    }

    /// The seed of the signing key.
    pub fn signing_key(&self) -> (seed: &[u8; 32])
        ensures
            seed@ == self.secret(),
    {
        &self.seed
    }

    /// The key that signatures are checked with.
    pub fn verifying_key(&self) -> (key: Ed25519PublicKeyBytes)
        ensures
            key@ == public_key_of(self.secret()),
            public_key_valid(key@),
    {
        Ed25519PublicKeyBytes::new(public_key(&self.seed))
    }

    pub fn sign(&self, message: &[u8]) -> (signature: Ed25519SignatureBytes)
        ensures
            signature@ == signature_by(self.secret(), message@),
            own_signature_holds(self.secret(), message@, signature@),
    {
        Ed25519SignatureBytes::new(sign(&self.seed, message))
    }
}

/// Why no identity is found.
#[derive(Debug, PartialEq, Eq)]
pub enum IdentityError {
    /// There is no directory to look in.
    InvalidState(String),
}

impl IdentityError {
    pub fn message(&self) -> (text: &str)
        ensures
            text@ == match self {
                IdentityError::InvalidState(message) => message@,
            },
    {
        match self {
            IdentityError::InvalidState(message) => message.as_str(),
        }
    }
}

/// Where the identity stands by default. `data_home` says whether the data
/// directory is absolute, where one is set.
pub fn default_identity_directory(data_home: Option<bool>, home_set: bool) -> (result: Result<
    DataRoot,
    IdentityError,
>)
    ensures
        match result {
            Ok(base) => base == (if data_home == Some(true) {
                DataRoot::DataHome
            } else {
                DataRoot::Home
            }) && (data_home == Some(true) || home_set),
            Err(IdentityError::InvalidState(message)) => data_home != Some(true) && !home_set
                && message@
                == "cannot locate identity directory: neither absolute XDG_DATA_HOME nor HOME is set"@,
        },
{
    match default_directory(data_home, home_set) {
        Some(base) => Ok(base),
        None => Err(
            IdentityError::InvalidState(
                String::from_str(
                    "cannot locate identity directory: neither absolute XDG_DATA_HOME nor HOME is set",
                ),
            ),
        ),
    }
}

} // verus!
