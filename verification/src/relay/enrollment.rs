//! Enrollment: a new user needs a token that was issued for them and their key.
use vstd::prelude::*;
use crate::bytes::{array_of, array_of_view, same_bytes};
use crate::crypto::{digest, sha256};
use crate::ids::{AuthenticationChallenge, Ed25519PublicKeyBytes, UserId};
use crate::relay::service::{RelayState, StateView};
use crate::relay::state::RelayTables;
use crate::relay::tables::{
    admitted, all_admitted, all_applied, applied, Change, ChangeView, RelayView, StorageError,
};
use crate::text::{hex_text, to_hex};

verus! {

/// How a user came to be registered.
#[derive(Clone, Copy, Debug, PartialEq, Eq, Structural)]
pub enum Registration {
    New,
    Existing,
}

/// How long a token can be used, in seconds.
pub const TOKEN_LIFETIME: i64 = 86400;

/// What a token is stored under.
pub open spec fn token_hash(token: Seq<u8>) -> [u8; 32] {
    array_of::<32>(sha256(token))
}

fn hash_of(bytes: &[u8]) -> (hash: [u8; 32])
    ensures
        hash@ == sha256(bytes@),
        hash == token_hash(bytes@),
{
    let hash = digest(bytes);
    proof {
        array_of_view(hash);
    }
    hash
}

/// Issuing a token for a user whose key has a fingerprint.
pub open spec fn issuance(
    view: RelayView,
    token: Seq<u8>,
    user: UserId,
    fingerprint: Seq<u8>,
    now: i64,
) -> Result<ChangeView, StorageError> {
    if now > i64::MAX - TOKEN_LIFETIME || view.tokens.contains_key(token_hash(token)) {
        Err(StorageError::Database)
    } else {
        Ok(
            ChangeView::Token {
                hash: token_hash(token),
                user,
                fingerprint,
                expires: (now + TOKEN_LIFETIME) as i64,
            },
        )
    }
}

/// Whether a token lets a user with a key in.
pub open spec fn token_opens(
    view: RelayView,
    token: Seq<u8>,
    user: UserId,
    key: Ed25519PublicKeyBytes,
    now: i64,
) -> bool {
    &&& view.tokens.contains_key(token_hash(token))
    &&& view.tokens[token_hash(token)].user == user
    &&& view.tokens[token_hash(token)].fingerprint == sha256(key@)
    &&& view.tokens[token_hash(token)].expires > now
    &&& !view.tokens[token_hash(token)].consumed
}

/// Registering a user with a key, and a token where they are new.
pub open spec fn registration(
    view: RelayView,
    user: UserId,
    key: Ed25519PublicKeyBytes,
    token: Option<Seq<u8>>,
    now: i64,
) -> Result<(Registration, Seq<ChangeView>), StorageError> {
    if view.identities.contains_key(user) {
        if view.identities[user] == key {
            Ok((Registration::Existing, Seq::empty()))
        } else {
            Err(StorageError::IdentityKeyConflict)
        }
    } else {
        match token {
            None => Err(StorageError::EnrollmentRequired),
            Some(token) => if token_opens(view, token, user, key, now) {
                Ok(
                    (
                        Registration::New,
                        seq![
                            ChangeView::TokenConsumed { hash: token_hash(token) },
                            ChangeView::Identity { user, key },
                        ],
                    ),
                )
            } else {
                Err(StorageError::EnrollmentRequired)
            },
        }
    }
}

impl RelayTables {
    /// The change that issues a token.
    pub fn plan_enrollment(
        &self,
        token: &AuthenticationChallenge,
        user: UserId,
        fingerprint: [u8; 32],
        now: i64,
    ) -> (result: Result<Change, StorageError>)
        ensures
            match issuance(self@, token@, user, fingerprint@, now) {
                Ok(change) => result matches Ok(got) && got.deep_view() == change && admitted(
                    self@,
                    change,
                ),
                Err(error) => result matches Err(got) && got == error,
            },
    {
        let hash = hash_of(token.as_bytes().as_slice());
        if now > i64::MAX - TOKEN_LIFETIME || self.tokens.contains(&hash) {
            return Err(StorageError::Database);
        }
        Ok(Change::Token { hash, user, fingerprint, expires: now + TOKEN_LIFETIME })
    }

    fn opens(
        &self,
        token: &[u8; 32],
        user: UserId,
        key: &Ed25519PublicKeyBytes,
        now: i64,
    ) -> (opens: bool)
        ensures
            opens == token_opens(self@, token@, user, *key, now),
    {
        let hash = hash_of(token.as_slice());
        let fingerprint = digest(key.as_bytes().as_slice());
        match self.tokens.get(&hash) {
            Some(row) => {
                proof {
                    if row.fingerprint@ == fingerprint@ {
                        assert(row.fingerprint =~= fingerprint);
                    }
                }
                row.user.same(&user) && same_bytes(&row.fingerprint, &fingerprint) && row.expires
                    > now && !row.consumed
            },
            None => false,
        }
    }

    /// How a user would be registered, and the changes that do it.
    pub fn plan_registration(
        &self,
        user: UserId,
        key: &Ed25519PublicKeyBytes,
        token: Option<[u8; 32]>,
        now: i64,
    ) -> (result: Result<(Registration, Vec<Change>), StorageError>)
        ensures
            match registration(self@, user, *key, token.deep_view(), now) {
                Ok((how, changes)) => result matches Ok((got, list)) && got == how
                    && list.deep_view() == changes && all_admitted(self@, changes),
                Err(error) => result matches Err(got) && got == error,
            },
    {
        let mut changes: Vec<Change> = Vec::new();
        assert(changes.deep_view() =~= Seq::<ChangeView>::empty());
        if let Some(existing) = self.identities.get(&user) {
            if !existing.same(key) {
                return Err(StorageError::IdentityKeyConflict);
            }
            return Ok((Registration::Existing, changes));
        }
        let token = match token {
            Some(token) => token,
            None => return Err(StorageError::EnrollmentRequired),
        };
        proof {
            array_of_view(token);
        }
        if !self.opens(&token, user, key, now) {
            return Err(StorageError::EnrollmentRequired);
        }
        let hash = hash_of(token.as_slice());
        changes.push(Change::TokenConsumed { hash });
        changes.push(Change::Identity { user, key: *key });
        proof {
            let consumed = ChangeView::TokenConsumed { hash };
            let identity = ChangeView::Identity { user, key: *key };
            let both = seq![consumed, identity];
            assert(changes.deep_view() =~= both);
            assert(both.drop_last() =~= seq![consumed]);
            assert(seq![consumed].drop_last() =~= Seq::<ChangeView>::empty());
            assert(all_admitted(self@, Seq::<ChangeView>::empty()));
            assert(all_applied(self@, Seq::<ChangeView>::empty()) == self@);
            assert(all_admitted(self@, seq![consumed]));
        }
        Ok((Registration::New, changes))
    }
}

impl RelayState {
    /// Issues a given token.
    pub fn issue_token(
        &mut self,
        token: &AuthenticationChallenge,
        user: UserId,
        fingerprint: [u8; 32],
        now: i64,
    ) -> (result: Result<String, StorageError>)
        ensures
            match issuance(old(self)@.tables, token@, user, fingerprint@, now) {
                Ok(change) => result matches Ok(text) && text@ == hex_text(token@) && final(self)@
                    == (StateView { tables: applied(old(self)@.tables, change), ..old(self)@ }),
                Err(error) => result matches Err(got) && got == error && final(self)@ == old(self)@,
            },
    {
        match self.tables.plan_enrollment(token, user, fingerprint, now) {
            Ok(change) => {
                match self.tables.apply(change) {
                    Ok(()) => Ok(to_hex(token.as_bytes().as_slice())),
                    Err(error) => Err(error),
                }
            },
            Err(error) => Err(error),
        }
    }

    /// Issues a random token for a user whose key has a fingerprint.
    pub fn issue_enrollment(&mut self, user: UserId, fingerprint: [u8; 32], now: i64) -> (result: Result<
        String,
        StorageError,
    >)
        ensures
            match result {
                Ok(text) => exists|token: Seq<u8>|
                    token.len() == 32 && text@ == hex_text(token) && (#[trigger] issuance(
                        old(self)@.tables,
                        token,
                        user,
                        fingerprint@,
                        now,
                    ) matches Ok(change) && final(self)@ == (StateView {
                        tables: applied(old(self)@.tables, change),
                        ..old(self)@
                    })),
                Err(error) => final(self)@ == old(self)@ && (error == StorageError::Random || error
                    == StorageError::Database),
            },
    {
        match AuthenticationChallenge::generate() {
            Ok(token) => {
                proof {
                    token.determined_by_bytes();
                }
                self.issue_token(&token, user, fingerprint, now)
            },
            Err(_) => Err(StorageError::Random),
        }
    }

    /// Registers a user with a key, and a token where they are new.
    pub fn register_enrolled_identity(
        &mut self,
        user: UserId,
        key: Ed25519PublicKeyBytes,
        token: Option<[u8; 32]>,
        now: i64,
    ) -> (result: Result<Registration, StorageError>)
        ensures
            match registration(old(self)@.tables, user, key, token.deep_view(), now) {
                Ok((how, changes)) => result matches Ok(got) && got == how && final(self)@ == (
                StateView { tables: all_applied(old(self)@.tables, changes), ..old(self)@ }),
                Err(error) => result matches Err(got) && got == error && final(self)@ == old(self)@,
            },
    {
        match self.tables.plan_registration(user, &key, token, now) {
            Ok((how, changes)) => match self.tables.commit(changes) {
                Ok(()) => Ok(how),
                Err(error) => Err(error),
            },
            Err(error) => Err(error),
        }
    }
}

/// A token is good once: after a registration with it, nobody gets in with it
/// again.
pub proof fn token_single_use(
    view: RelayView,
    user: UserId,
    key: Ed25519PublicKeyBytes,
    token: Seq<u8>,
    now: i64,
    other: UserId,
    other_key: Ed25519PublicKeyBytes,
    later: i64,
)
    requires
        registration(view, user, key, Some(token), now) matches Ok((how, _)) && how
            == Registration::New,
    ensures
        !token_opens(
            all_applied(view, registration(view, user, key, Some(token), now)->Ok_0.1),
            token,
            other,
            other_key,
            later,
        ),
{
    let changes = registration(view, user, key, Some(token), now)->Ok_0.1;
    assert(changes.drop_last() =~= seq![changes[0]]);
    assert(seq![changes[0]].drop_last() =~= Seq::<ChangeView>::empty());
    assert(all_applied(view, Seq::<ChangeView>::empty()) == view);
    assert(all_applied(view, seq![changes[0]]) == applied(view, changes[0]));
}

/// A registration lasts: afterwards the same user with the same key is known
/// without a token, and with another key is refused.
pub proof fn registration_lasts(
    view: RelayView,
    user: UserId,
    key: Ed25519PublicKeyBytes,
    token: Option<Seq<u8>>,
    now: i64,
    other_key: Ed25519PublicKeyBytes,
    other_token: Option<Seq<u8>>,
    later: i64,
)
    requires
        registration(view, user, key, token, now) is Ok,
    ensures
        registration(
            all_applied(view, registration(view, user, key, token, now)->Ok_0.1),
            user,
            other_key,
            other_token,
            later,
        ) == (if other_key == key {
            Ok::<(Registration, Seq<ChangeView>), StorageError>(
                (Registration::Existing, Seq::empty()),
            )
        } else {
            Err(StorageError::IdentityKeyConflict)
        }),
{
    let changes = registration(view, user, key, token, now)->Ok_0.1;
    if changes.len() > 0 {
        assert(changes.drop_last() =~= seq![changes[0]]);
        assert(seq![changes[0]].drop_last() =~= Seq::<ChangeView>::empty());
        assert(all_applied(view, Seq::<ChangeView>::empty()) == view);
        assert(all_applied(view, seq![changes[0]]) == applied(view, changes[0]));
    }
}

/// A token that was issued lets in the user it was issued for, with the key it
/// was issued for, until it expires.
pub proof fn issued_token_opens(
    view: RelayView,
    token: Seq<u8>,
    user: UserId,
    key: Ed25519PublicKeyBytes,
    now: i64,
    later: i64,
)
    requires
        issuance(view, token, user, sha256(key@), now) is Ok,
        later < now + TOKEN_LIFETIME,
    ensures
        token_opens(
            applied(view, issuance(view, token, user, sha256(key@), now)->Ok_0),
            token,
            user,
            key,
            later,
        ),
{
}

/// Nobody new gets in without a token that was issued for them and for their key,
/// that has not expired and was not used.
pub proof fn enrollment_needs_its_token(
    view: RelayView,
    user: UserId,
    key: Ed25519PublicKeyBytes,
    token: Option<Seq<u8>>,
    now: i64,
)
    requires
        !view.identities.contains_key(user),
    ensures
        registration(view, user, key, token, now) is Ok <==> (token is Some && token_opens(
            view,
            token->Some_0,
            user,
            key,
            now,
        )),
        registration(view, user, key, token, now) is Err ==> registration(
            view,
            user,
            key,
            token,
            now,
        ) == Err::<(Registration, Seq<ChangeView>), StorageError>(
            StorageError::EnrollmentRequired,
        ),
{
}

} // verus!
