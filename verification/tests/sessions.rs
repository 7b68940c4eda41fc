use treetap::codec::{decode_credential, decode_token, encode_token, parse_payload, Token};
use treetap::errors::Error;
use treetap::session::{get_tasks, login, post_tasks, signup};
use treetap::store::TreeStore;

fn bearer(token: &[u8]) -> Vec<Vec<u8>> {
    let mut h = b"Bearer ".to_vec();
    h.extend_from_slice(token);
    vec![h]
}

fn token_of(r: Result<Vec<u8>, Error>) -> u64 {
    let tok = r.expect("expected a token");
    decode_token(&tok).expect("token must decode").id
}

#[test]
fn signup_then_login_same_id() {
    let mut store = TreeStore::new();
    let email = b"a@a.com".to_vec();
    let pw = b"p".to_vec();
    let id1 = token_of(signup(&mut store, &email, &pw));
    let id2 = token_of(login(&store, &email, &pw));
    assert_eq!(id1, id2);
    assert_eq!(id1, TreeStore::make_id(&email));
}

#[test]
fn duplicate_email_rejected() {
    let mut store = TreeStore::new();
    let email = b"a@a.com".to_vec();
    assert!(signup(&mut store, &email, &b"p".to_vec()).is_ok());
    let second = signup(&mut store, &email, &b"other".to_vec());
    assert_eq!(second.unwrap_err(), Error::EmailExists);
    // the first account is untouched: its password still logs in
    assert!(login(&store, &email, &b"p".to_vec()).is_ok());
    assert_eq!(
        login(&store, &email, &b"other".to_vec()).unwrap_err(),
        Error::BadPassword
    );
}

#[test]
fn login_failures_are_distinct() {
    let mut store = TreeStore::new();
    let email = b"a@a.com".to_vec();
    signup(&mut store, &email, &b"p".to_vec()).unwrap();
    assert_eq!(
        login(&store, &email, &b"wrong".to_vec()).unwrap_err(),
        Error::BadPassword
    );
    assert_eq!(
        login(&store, &b"nobody@a.com".to_vec(), &b"p".to_vec()).unwrap_err(),
        Error::NoSuchUser
    );
}

#[test]
fn tasks_lifecycle() {
    let mut store = TreeStore::new();
    let email = b"a@a.com".to_vec();
    let tok = signup(&mut store, &email, &b"p".to_vec()).unwrap();
    let headers = bearer(&tok);

    assert_eq!(get_tasks(&store, &headers).unwrap_err(), Error::NoTasks);

    let d1 = b"{\"list\":[1,2,3]}".to_vec();
    post_tasks(&mut store, &headers, d1.clone()).unwrap();
    assert_eq!(get_tasks(&store, &headers).unwrap(), d1);

    // a second write replaces the document wholesale
    let d2 = b"{\"other\":true}".to_vec();
    post_tasks(&mut store, &headers, d2.clone()).unwrap();
    assert_eq!(get_tasks(&store, &headers).unwrap(), d2);
}

#[test]
fn scenario_full_session() {
    let mut store = TreeStore::new();
    let email = b"a@a.com".to_vec();
    let pw = b"p".to_vec();

    let tok = signup(&mut store, &email, &pw).unwrap();
    let signup_id = decode_token(&tok).unwrap().id;

    let tok2 = login(&store, &email, &pw).unwrap();
    assert_eq!(decode_token(&tok2).unwrap().id, signup_id);

    let wrong = login(&store, &email, &b"wrong".to_vec()).unwrap_err();
    assert_eq!(wrong, Error::BadPassword);
    assert_eq!(wrong.message(), "password doesn't match");

    // no authorization header at all
    let none: Vec<Vec<u8>> = Vec::new();
    assert_eq!(get_tasks(&store, &none).unwrap_err(), Error::MissingHeader);

    let headers = bearer(&tok);
    let doc = b"{\"list\":[1,2,3]}".to_vec();
    post_tasks(&mut store, &headers, doc.clone()).unwrap();
    assert_eq!(get_tasks(&store, &headers).unwrap(), doc);
}

#[test]
fn distinct_signups_all_kept() {
    let mut store = TreeStore::new();
    let emails: Vec<Vec<u8>> = vec![
        b"a@a.com".to_vec(),
        b"b@b.com".to_vec(),
        b"c@c.com".to_vec(),
        b"d@d.com".to_vec(),
        b"e@e.com".to_vec(),
    ];
    for e in &emails {
        signup(&mut store, e, &b"p".to_vec()).unwrap();
    }
    for e in &emails {
        assert!(login(&store, e, &b"p".to_vec()).is_ok());
    }
}

#[test]
fn invalid_token_rejected() {
    let mut store = TreeStore::new();
    signup(&mut store, &b"a@a.com".to_vec(), &b"p".to_vec()).unwrap();
    // a forged token naming an account that does not exist
    let forged = encode_token(42);
    let headers = bearer(&forged);
    assert_eq!(get_tasks(&store, &headers).unwrap_err(), Error::InvalidID);
    assert_eq!(
        post_tasks(&mut store, &headers, b"{}".to_vec()).unwrap_err(),
        Error::InvalidID
    );
}

#[test]
fn header_errors() {
    let store = TreeStore::new();
    let two = vec![b"Bearer x".to_vec(), b"Bearer y".to_vec()];
    assert_eq!(get_tasks(&store, &two).unwrap_err(), Error::TooManyHeaders);

    let basic = vec![b"Basic eyJpZCI6NX0=".to_vec()];
    assert_eq!(get_tasks(&store, &basic).unwrap_err(), Error::MissingScheme);

    let bare = vec![b"Bearer".to_vec()];
    assert_eq!(get_tasks(&store, &bare).unwrap_err(), Error::MissingScheme);

    let spaced = vec![b"Bearer x y".to_vec()];
    assert_eq!(get_tasks(&store, &spaced).unwrap_err(), Error::MissingScheme);

    let garbage = vec![b"Bearer !!!".to_vec()];
    assert_eq!(get_tasks(&store, &garbage).unwrap_err(), Error::DecodeError);

    // valid base64, but the payload is not the expected object
    let notjson = vec![b"Bearer bm90anNvbg==".to_vec()];
    assert_eq!(
        get_tasks(&store, &notjson).unwrap_err(),
        Error::MalformedPayload
    );
}

#[test]
fn token_round_trip_ids() {
    let ids = [0u64, 5, 9, 10, 42, 12345, 977412548909196752, u64::MAX];
    for &id in ids.iter() {
        let tok = encode_token(id);
        assert_eq!(decode_token(&tok).unwrap(), Token { id });
        let via_header = decode_credential(&bearer(&tok)).unwrap();
        assert_eq!(via_header.id, id);
    }
}

#[test]
fn token_encoding_is_base64_json() {
    // {"id":5} base64-encoded with the standard alphabet, padded
    assert_eq!(encode_token(5), b"eyJpZCI6NX0=".to_vec());
    assert_eq!(
        encode_token(977412548909196752),
        b"eyJpZCI6OTc3NDEyNTQ4OTA5MTk2NzUyfQ==".to_vec()
    );
}

#[test]
fn payload_parsing_edges() {
    // whitespace around the tokens is tolerated: ' {"id" : 42 } '
    let ws = vec![b"Bearer IHsiaWQiIDogNDIgfSA=".to_vec()];
    let store = TreeStore::new();
    assert_eq!(get_tasks(&store, &ws).unwrap_err(), Error::InvalidID);
    assert_eq!(decode_credential(&ws).unwrap().id, 42);

    // a leading zero is not a JSON number: {"id":01}
    let zero = vec![b"Bearer eyJpZCI6MDF9".to_vec()];
    assert_eq!(
        decode_credential(&zero).unwrap_err(),
        Error::MalformedPayload
    );

    // one past u64::MAX overflows: {"id":18446744073709551616}
    let over = vec![b"Bearer eyJpZCI6MTg0NDY3NDQwNzM3MDk1NTE2MTZ9".to_vec()];
    assert_eq!(
        decode_credential(&over).unwrap_err(),
        Error::MalformedPayload
    );

    // direct payload parse
    assert_eq!(parse_payload(&b"{\"id\":7}".to_vec()), Some(7));
    assert_eq!(parse_payload(&b"{\"id\":7,}".to_vec()), None);
    assert_eq!(parse_payload(&b"{}".to_vec()), None);
}
