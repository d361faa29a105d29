//! The bearer credential, held in the platform credential store. The store
//! itself is outside: the engine only decides what to do with it — an
//! empty value deletes the stored credential, a non-empty one replaces it,
//! and an unreadable secret means "not logged in" rather than an error.

use crate::errors::AppError;
use vstd::prelude::*;

verus! {

/// The outcome of an [`update`]: whether the credential was deleted or
/// replaced.
#[derive(Clone, Copy, Debug, PartialEq, Eq, Structural)]
pub enum TokenUpdateResult {
    Deleted,
    Updated,
}

#[verifier::external_type_specification]
#[verifier::external_body]
pub struct ExEntry(keyring::Entry);

#[verifier::external_type_specification]
#[verifier::external_body]
pub struct ExKeyringError(keyring::Error);

/// Relies on keyring::Entry::new: builds the handle for one service/user
/// pair in the platform credential store; it fails when no store is
/// available, and stores nothing by itself.
pub assume_specification [ keyring::Entry::new ](service: &str, username: &str) -> (r: Result<
    keyring::Entry,
    keyring::Error,
>);

/// Relies on keyring::Entry::get_password: returns the stored secret, or
/// an error when it is absent or the store cannot be read. What comes back
/// depends on the machine's credential store, so nothing is promised of
/// the value.
pub assume_specification [ keyring::Entry::get_password ](e: &keyring::Entry) -> (r: Result<
    String,
    keyring::Error,
>);

/// Relies on keyring::Entry::set_password: stores the given secret under
/// the entry's service/user pair.
pub assume_specification [ keyring::Entry::set_password ](
    e: &keyring::Entry,
    password: &str,
) -> (r: Result<(), keyring::Error>);

/// Relies on keyring::Entry::delete_credential: removes the stored secret.
pub assume_specification [ keyring::Entry::delete_credential ](e: &keyring::Entry) -> (r: Result<
    (),
    keyring::Error,
>);

fn token_entry() -> (r: Result<keyring::Entry, AppError>)
    ensures
        r matches Err(e) ==> e == AppError::CredentialStore,
{
    match keyring::Entry::new("dev.modzelewski.toggl-cli", "api_token") {
        Ok(en) => Ok(en),
        Err(_) => Err(AppError::CredentialStore),
    }
}

/// Reads the stored credential. An absent or unreadable secret is a valid,
/// unauthenticated state, never an error; only a store that cannot be
/// opened at all is fatal.
pub fn get() -> (r: Result<Option<String>, AppError>)
    ensures
        r matches Err(e) ==> e == AppError::CredentialStore,
{
    let entry = match token_entry() {
        Ok(en) => en,
        Err(e) => {
            return Err(e);
        },
    };
    match entry.get_password() {
        Ok(p) => Ok(Some(p)),
        Err(_) => Ok(None),
    }
}

/// Stores or deletes the credential: an empty value deletes it, a
/// non-empty one replaces it, and the result says which happened.
pub fn update(api_token: &str) -> (r: Result<TokenUpdateResult, AppError>)
    ensures
        r matches Ok(v) ==> v == (if api_token@.len() == 0 {
            TokenUpdateResult::Deleted
        } else {
            TokenUpdateResult::Updated
        }),
        r matches Err(e) ==> e == AppError::CredentialStore,
{
    let entry = match token_entry() {
        Ok(en) => en,
        Err(e) => {
            return Err(e);
        },
    };
    if api_token.is_empty() {
        match entry.delete_credential() {
            Ok(_) => Ok(TokenUpdateResult::Deleted),
            Err(_) => Err(AppError::CredentialStore),
        }
    } else {
        match entry.set_password(api_token) {
            Ok(_) => Ok(TokenUpdateResult::Updated),
            Err(_) => Err(AppError::CredentialStore),
        }
    }
}

} // verus!
