use idle_backend::auth::{
    basic_token, credential_from_decoded, encode_header, validate_header, Auth,
    AuthorizationError, InvalidBase64,
};

#[test]
fn test_validation() {
    let expected = Auth {
        username: "username".to_string(),
        password: "password".to_string(),
    };

    let got = validate_header("Basic dXNlcm5hbWU6cGFzc3dvcmQ=").unwrap();

    if expected != got {
        panic!("expected: {expected:?}, got: {got:?}");
    }
}

#[test]
fn bearer_scheme_is_not_basic() {
    assert_eq!(
        validate_header("Bearer xyz"),
        Err(AuthorizationError::NotBasicAuthentication)
    );
}

#[test]
fn scheme_is_case_sensitive_and_needs_one_space() {
    assert_eq!(
        validate_header("basic dXNlcm5hbWU6cGFzc3dvcmQ="),
        Err(AuthorizationError::NotBasicAuthentication)
    );
    assert_eq!(
        validate_header("BasicdXNlcm5hbWU6cGFzc3dvcmQ="),
        Err(AuthorizationError::NotBasicAuthentication)
    );
    assert_eq!(validate_header("Basic"), Err(AuthorizationError::NotBasicAuthentication));
    assert_eq!(validate_header(""), Err(AuthorizationError::NotBasicAuthentication));
}

#[test]
fn empty_token_or_token_with_space_is_malformed() {
    assert_eq!(validate_header("Basic "), Err(AuthorizationError::MalformedToken));
    assert_eq!(
        validate_header("Basic  dXNlcm5hbWU6cGFzc3dvcmQ="),
        Err(AuthorizationError::MalformedToken)
    );
    assert_eq!(
        validate_header("Basic dXNlcm5hbWU6 cGFzc3dvcmQ="),
        Err(AuthorizationError::MalformedToken)
    );
    assert_eq!(
        validate_header("Basic dXNlcm5hbWU6cGFzc3dvcmQ= "),
        Err(AuthorizationError::MalformedToken)
    );
}

#[test]
fn invalid_base64_names_the_cause() {
    assert_eq!(
        validate_header("Basic dXNl*m5hbWU6cGFzc3dvcmQ="),
        Err(AuthorizationError::InvalidBase64(InvalidBase64::InvalidByte {
            index: 4,
            offending_byte: b'*',
        }))
    );
    assert_eq!(
        validate_header("Basic dXNlc"),
        Err(AuthorizationError::InvalidBase64(InvalidBase64::InvalidLength))
    );
    assert_eq!(
        validate_header("Basic dXNlcm5hbWU6cGFzc3dvcmR="),
        Err(AuthorizationError::InvalidBase64(InvalidBase64::InvalidLastSymbol {
            index: 22,
            offending_byte: b'R',
        }))
    );
}

#[test]
fn decode_errors_convert_variant_by_variant() {
    assert_eq!(
        InvalidBase64::from(base64::DecodeError::InvalidByte(3, 32)),
        InvalidBase64::InvalidByte { index: 3, offending_byte: 32 }
    );
    assert_eq!(
        InvalidBase64::from(base64::DecodeError::InvalidLength),
        InvalidBase64::InvalidLength
    );
    assert_eq!(
        InvalidBase64::from(base64::DecodeError::InvalidLastSymbol(7, 66)),
        InvalidBase64::InvalidLastSymbol { index: 7, offending_byte: 66 }
    );
    assert_eq!(
        AuthorizationError::from(base64::DecodeError::InvalidLength),
        AuthorizationError::InvalidBase64(InvalidBase64::InvalidLength)
    );
    let not_utf8 = String::from_utf8(vec![0xff]).unwrap_err();
    assert_eq!(AuthorizationError::from(not_utf8), AuthorizationError::InvalidUTF8);
}

#[test]
fn decoded_bytes_must_be_utf8() {
    let header = format!("Basic {}", base64::encode([b'a', 0xff, b':', b'b']));
    assert_eq!(validate_header(&header), Err(AuthorizationError::InvalidUTF8));
    assert_eq!(
        credential_from_decoded(vec![0xc3, 0x28, b':', b'x']),
        Err(AuthorizationError::InvalidUTF8)
    );
}

#[test]
fn decoded_text_must_hold_a_colon() {
    let header = format!("Basic {}", base64::encode("usernamepassword"));
    assert_eq!(validate_header(&header), Err(AuthorizationError::MissingSeparator));
    assert_eq!(
        credential_from_decoded(Vec::new()),
        Err(AuthorizationError::MissingSeparator)
    );
}

#[test]
fn only_the_first_colon_splits() {
    let got = credential_from_decoded(b"user:pa:ss:".to_vec()).unwrap();
    assert_eq!(got.username, "user");
    assert_eq!(got.password, "pa:ss:");
}

#[test]
fn nothing_is_trimmed() {
    let got = credential_from_decoded(b" user \t: pass ".to_vec()).unwrap();
    assert_eq!(got.username, " user \t");
    assert_eq!(got.password, " pass ");
    let empty = credential_from_decoded(b":".to_vec()).unwrap();
    assert_eq!(empty.username, "");
    assert_eq!(empty.password, "");
}

#[test]
fn text_beyond_ascii_splits_at_the_colon() {
    let got = credential_from_decoded("jos\u{e9}\u{1f600}:p\u{e4}ss:w\u{f6}rd".as_bytes().to_vec())
        .unwrap();
    assert_eq!(got.username, "jos\u{e9}\u{1f600}");
    assert_eq!(got.password, "p\u{e4}ss:w\u{f6}rd");
}

#[test]
fn basic_token_is_what_follows_the_prefix() {
    assert_eq!(basic_token(b"Basic abc"), Ok(&b"abc"[..]));
    assert_eq!(basic_token(b"Basic a c"), Err(AuthorizationError::MalformedToken));
    assert_eq!(basic_token(b"Basi"), Err(AuthorizationError::NotBasicAuthentication));
}

#[test]
fn encoded_header_is_basic_and_base64() {
    assert_eq!(
        encode_header("username", "password"),
        Some("Basic dXNlcm5hbWU6cGFzc3dvcmQ=".to_string())
    );
    assert_eq!(encode_header("", ""), Some("Basic Og==".to_string()));
}

#[test]
fn header_round_trip() {
    let pairs = [
        ("username", "password"),
        ("", ""),
        ("a", ""),
        ("", "b"),
        ("bob", "with:colons:"),
        ("sp ace", " lead and trail "),
        ("jos\u{e9}", "\u{1f600}\u{0}\u{7f}"),
    ];
    for (username, password) in pairs {
        let header = encode_header(username, password).unwrap();
        let got = validate_header(&header).unwrap();
        assert_eq!(got.username, username);
        assert_eq!(got.password, password);
    }
}

#[test]
fn username_with_a_colon_is_not_encoded() {
    assert_eq!(encode_header("a:b", "c"), None);
    assert_eq!(encode_header(":", ""), None);
}

#[test]
fn header_errors_have_their_sentences() {
    assert_eq!(
        AuthorizationError::InvalidBase64(InvalidBase64::InvalidLength).message(),
        "The provided base64 is invalid"
    );
    assert_eq!(AuthorizationError::InvalidUTF8.message(), "The decoded UTF-8 is invalid");
    assert_eq!(
        AuthorizationError::NotBasicAuthentication.message(),
        "The authentication format was not Basic"
    );
    assert_eq!(
        AuthorizationError::MalformedToken.message(),
        "The authentication token is empty or holds a space"
    );
    assert_eq!(AuthorizationError::MissingSeparator.message(), "The credential holds no colon");
}
