//! The session operations: signup, login, get-tasks and put-tasks. Each is
//! one request/response transaction composing the codec, the credential
//! manager and the store. The surrounding program keeps the store behind one
//! mutual-exclusion lock and calls each operation inside one acquisition, so
//! each runs atomically with respect to the others.

use vstd::prelude::*;
use crate::auth::{hash_of, MAX_PASSWORD_LEN};
use crate::codec::{credential_id, decode_credential, encode_token, token_id};
use crate::errors::Error;
use crate::hash::fnv1a;
use crate::store::TreeStore;

verus! {

/// Sign up: create the account and answer with a token naming the new
/// identifier. An email that is already indexed is rejected as EmailExists
/// and the store is left unchanged.
pub fn signup(store: &mut TreeStore, email: &Vec<u8>, password: &Vec<u8>) -> (r: Result<
    Vec<u8>,
    Error,
>)
    requires
        password@.len() <= MAX_PASSWORD_LEN,
    ensures
        old(store).emails().contains_key(email@) ==> r == Err::<Vec<u8>, Error>(Error::EmailExists)
            && *final(store) == *old(store),
        !old(store).emails().contains_key(email@) ==> {
            &&& r matches Ok(tok) && token_id(tok@) == Ok::<u64, Error>(fnv1a(email@))
            &&& final(store).emails() =~= old(store).emails().insert(email@, fnv1a(email@))
            &&& final(store).users() =~= old(store).users().insert(
                fnv1a(email@),
                hash_of(password@),
            )
            &&& final(store).tasks() == old(store).tasks()
        },
{
    match store.create_account(email, password) {
        Err(e) => Err(e),
        Ok(id) => Ok(encode_token(id)),
    }
}

/// Log in: authenticate and answer with a token naming the account's
/// identifier. An unindexed email is rejected as NoSuchUser; a password
/// that does not hash to the stored hash is rejected as BadPassword.
pub fn login(store: &TreeStore, email: &Vec<u8>, password: &Vec<u8>) -> (r: Result<Vec<u8>, Error>)
    requires
        password@.len() <= MAX_PASSWORD_LEN,
    ensures
        !store.emails().contains_key(email@) ==> r == Err::<Vec<u8>, Error>(Error::NoSuchUser),
        store.emails().contains_key(email@) ==> {
            let id = store.emails()[email@];
            if store.users()[id] == hash_of(password@) {
                r matches Ok(tok) && token_id(tok@) == Ok::<u64, Error>(id)
            } else {
                r == Err::<Vec<u8>, Error>(Error::BadPassword)
            }
        },
{
    match store.authenticate(email, password) {
        Err(e) => Err(e),
        Ok(id) => Ok(encode_token(id)),
    }
}

/// Read the task document: decode the one bearer credential, then look the
/// account and its document up.
pub fn get_tasks(store: &TreeStore, headers: &Vec<Vec<u8>>) -> (r: Result<Vec<u8>, Error>)
    ensures
        match credential_id(headers@) {
            Err(e) => r == Err::<Vec<u8>, Error>(e),
            Ok(id) => {
                &&& !store.users().contains_key(id) ==> r == Err::<Vec<u8>, Error>(
                    Error::InvalidID,
                )
                &&& store.users().contains_key(id) && !store.tasks().contains_key(id) ==> r
                    == Err::<Vec<u8>, Error>(Error::NoTasks)
                &&& store.users().contains_key(id) && store.tasks().contains_key(id) ==> (
                r matches Ok(d) && d@ == store.tasks()[id])
            },
        },
{
    match decode_credential(headers) {
        Err(e) => Err(e),
        Ok(token) => store.get_tasks(token.id),
    }
}

/// Replace the task document wholesale: decode the one bearer credential,
/// then write. A credential naming no account is rejected as InvalidID.
pub fn post_tasks(store: &mut TreeStore, headers: &Vec<Vec<u8>>, tasks: Vec<u8>) -> (r: Result<
    (),
    Error,
>)
    ensures
        match credential_id(headers@) {
            Err(e) => r == Err::<(), Error>(e) && *final(store) == *old(store),
            Ok(id) => {
                &&& !old(store).users().contains_key(id) ==> r == Err::<(), Error>(
                    Error::InvalidID,
                ) && *final(store) == *old(store)
                &&& old(store).users().contains_key(id) ==> {
                    &&& r == Ok::<(), Error>(())
                    &&& final(store).tasks() =~= old(store).tasks().insert(id, tasks@)
                    &&& final(store).emails() == old(store).emails()
                    &&& final(store).users() == old(store).users()
                }
            },
        },
{
    match decode_credential(headers) {
        Err(e) => Err(e),
        Ok(token) => store.put_tasks(token.id, tasks),
    }
}

} // verus!
