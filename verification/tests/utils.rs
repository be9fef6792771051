use proxy::config::Auth;
use proxy::utils::authenticate;
use proxy::utils::authorize;
use proxy::utils::credentials;
use proxy::utils::decode;
use proxy::utils::AuthError;

#[test]
fn decode_test() {
    let username = "username".to_string();
    let passwd = "password".to_string();
    let encode_msg = "dXNlcm5hbWU6cGFzc3dvcmQ".to_string();

    let result = decode(&encode_msg);
    assert!(result.is_ok());
    let (u, p) = result.unwrap();
    println!("{}, {}", u, p);
    assert_eq!(u, username);
    assert!(u.eq(&username) && p.eq(&passwd));
}

#[test]
fn decode_with_padding() {
    let (u, p) = decode(&"dXNlcm5hbWU6cGFzc3dvcmQ=".to_string()).unwrap();
    assert_eq!(u, "username");
    assert_eq!(p, "password");
}

#[test]
fn decode_refuses_what_is_no_base64() {
    assert_eq!(decode(&"not base64!".to_string()).unwrap_err(), AuthError::Encoding);
    assert_eq!(decode(&"a".to_string()).unwrap_err(), AuthError::Encoding);
    assert_eq!(decode(&"=".to_string()).unwrap_err(), AuthError::Encoding);
}

#[test]
fn decode_cuts_at_first_colon() {
    let (u, p) = decode(&"YTpiOmM=".to_string()).unwrap();
    assert_eq!(u, "a");
    assert_eq!(p, "b:c");
    let (u, p) = decode(&"Og==".to_string()).unwrap();
    assert_eq!(u, "");
    assert_eq!(p, "");
    assert_eq!(decode(&"dXNlcg==".to_string()).unwrap_err(), AuthError::Format);
    assert_eq!(decode(&"".to_string()).unwrap_err(), AuthError::Format);
    assert_eq!(decode(&"/w==".to_string()).unwrap_err(), AuthError::Encoding);
}

#[test]
fn credentials_of_decoded_bytes() {
    assert_eq!(
        credentials(Ok(b"user:pass".to_vec())).unwrap(),
        ("user".to_string(), "pass".to_string())
    );
    assert_eq!(credentials(Ok(b"userpass".to_vec())).unwrap_err(), AuthError::Format);
    assert_eq!(credentials(Ok(vec![0xff, b':'])).unwrap_err(), AuthError::Encoding);
    assert_eq!(credentials(base64::decode("***")).unwrap_err(), AuthError::Encoding);
}

#[test]
fn header_must_begin_with_basic() {
    let ok = "Basic dXNlcm5hbWU6cGFzc3dvcmQ=".to_string();
    assert_eq!(
        authenticate(Some(&ok)).unwrap(),
        ("username".to_string(), "password".to_string())
    );
    assert_eq!(authenticate(None).unwrap_err(), AuthError::Missing);
    for bad in ["basic dXNlcm5hbWU6cGFzc3dvcmQ=", "Basic", "Bearer abc", "", "BasicdXNlcg=="] {
        assert_eq!(authenticate(Some(&bad.to_string())).unwrap_err(), AuthError::Scheme);
    }
    assert_eq!(authenticate(Some(&"Basic !!".to_string())).unwrap_err(), AuthError::Encoding);
    assert_eq!(authenticate(Some(&"Basic dXNlcg==".to_string())).unwrap_err(), AuthError::Format);
    assert_eq!(authenticate(Some(&"Basic ".to_string())).unwrap_err(), AuthError::Format);
}

#[test]
fn credentials_must_be_those_of_the_proxy() {
    let auth = Auth { enable: true, username: "rust".to_string(), password: "proxy".to_string() };
    let right = "Basic cnVzdDpwcm94eQ==".to_string();
    let wrong_password = "Basic cnVzdDpwcm94eg==".to_string();
    let wrong_user = "Basic dXNlcm5hbWU6cHJveHk=".to_string();
    assert_eq!(authorize(&auth, Some(&right)).unwrap(), "rust");
    assert_eq!(authorize(&auth, Some(&wrong_password)).unwrap_err(), AuthError::Mismatch);
    assert_eq!(authorize(&auth, Some(&wrong_user)).unwrap_err(), AuthError::Mismatch);
    assert_eq!(authorize(&auth, None).unwrap_err(), AuthError::Missing);
    assert_eq!(authorize(&auth, Some(&"rust:proxy".to_string())).unwrap_err(), AuthError::Scheme);
}
