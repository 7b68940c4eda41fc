use treetap::auth::User;
use treetap::errors::{
    bad_request, internal_server_error, not_found, unauthorized, unprocessable_entity, ErrRes,
    Error,
};
use treetap::hash::fnv1a_hash;
use treetap::store::TreeStore;

#[test]
fn identity_derivation_is_deterministic() {
    let email = b"a@a.com".to_vec();
    let id1 = TreeStore::make_id(&email);
    let id2 = TreeStore::make_id(&email);
    assert_eq!(id1, id2);
    // the 64-bit FNV-1a value of "a@a.com"
    assert_eq!(id1, 977412548909196752);
    assert_eq!(fnv1a_hash(&b"b@b.com".to_vec()), 16206972714338534952);
    assert_eq!(fnv1a_hash(&Vec::new()), 0xcbf29ce484222325);
}

#[test]
fn password_hash_verifies() {
    let user = User::new(&b"p".to_vec());
    // an Argon2 encoded hash, not the password handed back
    assert!(user.pwhash.starts_with("$argon2"));
    assert!(user.verify_pw(&b"p".to_vec()));
    assert!(!user.verify_pw(&b"wrong".to_vec()));
    assert!(!user.verify_pw(&b"".to_vec()));
}

#[test]
fn malformed_stored_hash_fails_closed() {
    let user = User {
        pwhash: "not an encoded hash".to_string(),
    };
    assert!(!user.verify_pw(&b"p".to_vec()));
}

#[test]
fn same_password_same_hash() {
    // the salt is fixed for the whole store, so equal passwords hash alike
    let u1 = User::new(&b"p".to_vec());
    let u2 = User::new(&b"p".to_vec());
    assert_eq!(u1.pwhash, u2.pwhash);
}

#[test]
fn error_messages() {
    assert_eq!(Error::EmailExists.message(), "email exists");
    assert_eq!(Error::NoSuchUser.message(), "no such user");
    assert_eq!(Error::BadPassword.message(), "password doesn't match");
    assert_eq!(Error::InvalidID.message(), "invalid token");
    assert_eq!(Error::NoTasks.message(), "no tasks");
    assert_eq!(Error::MissingHeader.message(), "auth: missing header");
    assert_eq!(Error::TooManyHeaders.message(), "auth: too many headers");
    assert_eq!(Error::MissingScheme.message(), "auth: missing Bearer scheme");
    assert_eq!(Error::DecodeError.message(), "auth: while base64 decoding");
    assert_eq!(
        Error::MalformedPayload.message(),
        "auth: while JSON decoding"
    );
}

#[test]
fn catcher_bodies() {
    assert_eq!(bad_request().error, "bad request");
    assert_eq!(unauthorized().error, "requires authentication");
    assert_eq!(not_found().error, "not found");
    assert_eq!(unprocessable_entity().error, "unprocessable entity");
    assert_eq!(internal_server_error().error, "internal server error");
    assert_eq!(ErrRes::of_error(&Error::NoTasks).error, "no tasks");
}

#[test]
fn store_reads_do_not_mutate() {
    let mut store = TreeStore::new();
    let email = b"a@a.com".to_vec();
    let id = store
        .create_account(&email, &b"p".to_vec())
        .expect("fresh email");
    assert_eq!(
        store.create_account(&email, &b"p".to_vec()).unwrap_err(),
        Error::EmailExists
    );
    assert_eq!(store.authenticate(&email, &b"p".to_vec()).unwrap(), id);
    assert_eq!(store.get_tasks(id).unwrap_err(), Error::NoTasks);
    assert_eq!(store.get_tasks(id ^ 1).unwrap_err(), Error::InvalidID);
    store.put_tasks(id, b"[1]".to_vec()).unwrap();
    assert_eq!(store.get_tasks(id).unwrap(), b"[1]".to_vec());
}
