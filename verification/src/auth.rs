//! The credential codec: from a raw `Basic` authorization header to a
//! username and a password, and back.
//!
//! The header is read as bytes. What stands after the scheme prefix is
//! base64, decoded by the `base64` crate; the decoded bytes are UTF-8 text of
//! the form `username:password`, split at the first colon.

use crate::text::{
    lemma_decode_around_ascii, lemma_decode_without, lemma_encode_ascii_char,
    lemma_encode_concat, lemma_encode_without, lemma_prefix_without, lemma_prefix_without_is,
    prefix_without,
};
use vstd::prelude::*;
use vstd::slice::slice_subrange;
use vstd::string::StringExecFns;
use vstd::utf8::*;

verus! {

/// The error of `base64::decode`, as the crate defines it.
#[verifier::external_type_specification]
pub struct ExDecodeError(base64::DecodeError);

/// The error of `String::from_utf8`.
#[verifier::external_type_specification]
#[verifier::external_body]
pub struct ExFromUtf8Error(std::string::FromUtf8Error);

/// Why a token is not base64: the cause, with the offending byte and its
/// position where there is one.
#[derive(Debug, Clone, Copy, PartialEq, Eq, Structural)]
pub enum InvalidBase64 {
    InvalidByte { index: usize, offending_byte: u8 },
    InvalidLength,
    InvalidLastSymbol { index: usize, offending_byte: u8 },
}

/// The cause that a decoding error names, with its byte and position.
pub open spec fn cause_of(err: base64::DecodeError) -> InvalidBase64 {
    match err {
        base64::DecodeError::InvalidByte(index, offending_byte) => InvalidBase64::InvalidByte {
            index,
            offending_byte,
        },
        base64::DecodeError::InvalidLength => InvalidBase64::InvalidLength,
        base64::DecodeError::InvalidLastSymbol(index, offending_byte) => {
            InvalidBase64::InvalidLastSymbol { index, offending_byte }
        },
    }
}

impl vstd::std_specs::convert::FromSpecImpl<base64::DecodeError> for InvalidBase64 {
    open spec fn obeys_from_spec() -> bool {
        true
    }

    open spec fn from_spec(err: base64::DecodeError) -> InvalidBase64 {
        cause_of(err)
    }
}

impl From<base64::DecodeError> for InvalidBase64 {
    fn from(err: base64::DecodeError) -> (e: InvalidBase64) {
        match err {
            base64::DecodeError::InvalidByte(index, offending_byte) => InvalidBase64::InvalidByte {
                index,
                offending_byte,
            },
            base64::DecodeError::InvalidLength => InvalidBase64::InvalidLength,
            base64::DecodeError::InvalidLastSymbol(index, offending_byte) => {
                InvalidBase64::InvalidLastSymbol { index, offending_byte }
            },
        }
    }
}

/// Why a header yields no credential.
#[derive(Debug, Clone, Copy, PartialEq, Eq, Structural)]
pub enum AuthorizationError {
    /// The token is not base64.
    InvalidBase64(InvalidBase64),
    /// The decoded bytes are not UTF-8.
    InvalidUTF8,
    /// The header does not begin with `Basic` and one space.
    NotBasicAuthentication,
    /// The token is empty or holds a space.
    MalformedToken,
    /// The decoded text holds no colon.
    MissingSeparator,
}

impl vstd::std_specs::convert::FromSpecImpl<base64::DecodeError> for AuthorizationError {
    open spec fn obeys_from_spec() -> bool {
        true
    }

    open spec fn from_spec(err: base64::DecodeError) -> AuthorizationError {
        AuthorizationError::InvalidBase64(cause_of(err))
    }
}

impl From<base64::DecodeError> for AuthorizationError {
    fn from(err: base64::DecodeError) -> (e: AuthorizationError) {
        AuthorizationError::InvalidBase64(InvalidBase64::from(err))
    }
}

impl vstd::std_specs::convert::FromSpecImpl<std::string::FromUtf8Error> for AuthorizationError {
    open spec fn obeys_from_spec() -> bool {
        true
    }

    open spec fn from_spec(err: std::string::FromUtf8Error) -> AuthorizationError {
        AuthorizationError::InvalidUTF8
    }
}

impl From<std::string::FromUtf8Error> for AuthorizationError {
    fn from(err: std::string::FromUtf8Error) -> (e: AuthorizationError) {
        AuthorizationError::InvalidUTF8
    }
}

/// The sentence that tells a client what is wrong with its header.
pub open spec fn message_of(err: AuthorizationError) -> Seq<char> {
    match err {
        AuthorizationError::InvalidBase64(_) => "The provided base64 is invalid"@,
        AuthorizationError::InvalidUTF8 => "The decoded UTF-8 is invalid"@,
        AuthorizationError::NotBasicAuthentication => "The authentication format was not Basic"@,
        AuthorizationError::MalformedToken => "The authentication token is empty or holds a space"@,
        AuthorizationError::MissingSeparator => "The credential holds no colon"@,
    }
}

impl AuthorizationError {
    /// The sentence that tells a client what is wrong with its header.
    pub fn message(&self) -> (text: String)
        ensures
            text@ == message_of(*self),
    {
        match self {
            AuthorizationError::InvalidBase64(_) => "The provided base64 is invalid".to_owned(),
            AuthorizationError::InvalidUTF8 => "The decoded UTF-8 is invalid".to_owned(),
            AuthorizationError::NotBasicAuthentication => {
                "The authentication format was not Basic".to_owned()
            },
            AuthorizationError::MalformedToken => {
                "The authentication token is empty or holds a space".to_owned()
            },
            AuthorizationError::MissingSeparator => "The credential holds no colon".to_owned(),
        }
    }
}

/// A credential: never stored, never logged.
#[derive(Debug, PartialEq, Eq)]
pub struct Auth {
    pub username: String,
    pub password: String,
}

impl View for Auth {
    type V = (Seq<char>, Seq<char>);

    open spec fn view(&self) -> (Seq<char>, Seq<char>) {
        (self.username@, self.password@)
    }
}

/// What `base64::decode` returns on `text`.
pub uninterp spec fn base64_decoded(text: Seq<u8>) -> Result<Seq<u8>, base64::DecodeError>;

/// Calls `base64::decode`, which reads standard base64 with padding. The
/// result is a function of the text alone; the call needs room for three
/// more than the text's length in a `usize`.
#[verifier::external_body]
fn decode_base64(text: &[u8]) -> (decoded: Result<Vec<u8>, base64::DecodeError>)
    requires
        text@.len() + 3 <= usize::MAX,
    ensures
        base64_decoded(text@) == (match decoded {
            Ok(bytes) => Ok::<Seq<u8>, base64::DecodeError>(bytes@),
            Err(e) => Err(e),
        }),
{
    base64::decode(text)
}

/// `String::from_utf8` succeeds exactly on valid UTF-8, and the string then
/// holds the bytes it was given.
pub assume_specification[ String::from_utf8 ](vec: Vec<u8>) -> (text: Result<
    String,
    std::string::FromUtf8Error,
>)
    ensures
        text is Ok <==> valid_utf8(vec@),
        match text {
            Ok(s) => encode_utf8(s@) == vec@,
            Err(_) => true,
        },
;

/// The scheme prefix, `Basic` and one space, as bytes.
pub open spec fn basic_prefix() -> Seq<u8> {
    seq![0x42u8, 0x61u8, 0x73u8, 0x69u8, 0x63u8, 0x20u8]
}

/// The byte of a space.
pub const SPACE: u8 = 0x20;

/// The byte of a colon.
pub const COLON: u8 = 0x3A;

/// The token of a header: what follows the scheme prefix, which must be
/// there, must not be empty and must hold no space.
pub open spec fn token_of(header: Seq<u8>) -> Result<Seq<u8>, AuthorizationError> {
    if !(header.len() >= 6 && header.subrange(0, 6) == basic_prefix()) {
        Err(AuthorizationError::NotBasicAuthentication)
    } else if header.len() == 6 || header.subrange(6, header.len() as int).contains(SPACE) {
        Err(AuthorizationError::MalformedToken)
    } else {
        Ok(header.subrange(6, header.len() as int))
    }
}

/// The credential in decoded bytes: they must be UTF-8 text that holds a
/// colon; what stands before the first colon is the username, all that
/// follows it the password.
pub open spec fn credential_of(decoded: Seq<u8>) -> Result<
    (Seq<char>, Seq<char>),
    AuthorizationError,
> {
    if !valid_utf8(decoded) {
        Err(AuthorizationError::InvalidUTF8)
    } else {
        let text = decode_utf8(decoded);
        let at = prefix_without(text, ':');
        if at == text.len() {
            Err(AuthorizationError::MissingSeparator)
        } else {
            Ok((text.subrange(0, at), text.subrange(at + 1, text.len() as int)))
        }
    }
}

/// What a header decodes to: the credential in what base64 makes of its
/// token.
pub open spec fn header_outcome(header: Seq<u8>) -> Result<
    (Seq<char>, Seq<char>),
    AuthorizationError,
> {
    match token_of(header) {
        Err(e) => Err(e),
        Ok(token) => match base64_decoded(token) {
            Err(e) => Err(AuthorizationError::InvalidBase64(cause_of(e))),
            Ok(bytes) => credential_of(bytes),
        },
    }
}

/// A decoding result with the credential taken by its view.
pub open spec fn outcome_view(outcome: Result<Auth, AuthorizationError>) -> Result<
    (Seq<char>, Seq<char>),
    AuthorizationError,
> {
    match outcome {
        Ok(auth) => Ok(auth@),
        Err(e) => Err(e),
    }
}

/// The token of a header, or why it has none.
pub fn basic_token(header: &[u8]) -> (token: Result<&[u8], AuthorizationError>)
    ensures
        token_of(header@) == (match token {
            Ok(t) => Ok::<Seq<u8>, AuthorizationError>(t@),
            Err(e) => Err(e),
        }),
        token is Ok ==> token->Ok_0@.len() + 6 <= usize::MAX,
{
    if header.len() < 6 || header[0] != 0x42 || header[1] != 0x61 || header[2] != 0x73 || header[3]
        != 0x69 || header[4] != 0x63 || header[5] != 0x20 {
        proof {
            if header.len() >= 6 {
                let head = header@.subrange(0, 6);
                assert(head[0] == header@[0] && head[1] == header@[1] && head[2] == header@[2]
                    && head[3] == header@[3] && head[4] == header@[4] && head[5] == header@[5]);
            }
        }
        return Err(AuthorizationError::NotBasicAuthentication);
    }
    assert(header@.subrange(0, 6) =~= basic_prefix());
    let token = slice_subrange(header, 6, header.len());
    if token.len() == 0 {
        return Err(AuthorizationError::MalformedToken);
    }
    let mut i: usize = 0;
    while i < token.len()
        invariant
            i <= token.len(),
            header@.len() > 6,
            header@.subrange(0, 6) == basic_prefix(),
            token@ == header@.subrange(6, header@.len() as int),
            forall|j: int| 0 <= j < i ==> token@[j] != SPACE,
        decreases token.len() - i,
    {
        if token[i] == SPACE {
            assert(token@[i as int] == SPACE);
            return Err(AuthorizationError::MalformedToken);
        }
        i += 1;
    }
    Ok(token)
}

/// The credential in the bytes that base64 gave back, or why there is none.
pub fn credential_from_decoded(decoded: Vec<u8>) -> (outcome: Result<Auth, AuthorizationError>)
    ensures
        outcome_view(outcome) == credential_of(decoded@),
{
    let ghost bytes = decoded@;
    let text = match String::from_utf8(decoded) {
        Ok(text) => text,
        Err(e) => {
            return Err(AuthorizationError::from(e));
        },
    };
    let whole = text.as_str();
    let raw = whole.as_bytes();
    proof {
        encode_utf8_decode_utf8(text@);
        assert(raw@ == bytes);
        assert(text@ == decode_utf8(bytes));
    }
    let mut at: usize = 0;
    while at < raw.len() && raw[at] != COLON
        invariant
            at <= raw.len(),
            forall|j: int| 0 <= j < at ==> raw@[j] != COLON,
        decreases raw.len() - at,
    {
        at += 1;
    }
    if at == raw.len() {
        proof {
            lemma_decode_without(bytes, COLON);
            lemma_prefix_without(text@, ':');
        }
        return Err(AuthorizationError::MissingSeparator);
    }
    proof {
        lemma_decode_around_ascii(bytes, at as int);
    }
    let (name, rest) = whole.split_at(at);
    let (_, secret) = rest.split_at(1);
    proof {
        let before = bytes.subrange(0, at as int);
        let tail = bytes.subrange(at as int, bytes.len() as int);
        let after = bytes.subrange(at + 1, bytes.len() as int);
        assert(tail.subrange(1, tail.len() as int) =~= after);
        encode_utf8_decode_utf8(name@);
        encode_utf8_decode_utf8(secret@);
        assert(name@ == decode_utf8(before));
        assert(secret@ == decode_utf8(after));
        assert(!before.contains(COLON));
        lemma_decode_without(before, COLON);
        assert(text@ == name@ + seq![':'] + secret@);
        assert forall|j: int| 0 <= j < name@.len() implies text@[j] != ':' by {
            assert(text@[j] == name@[j]);
        }
        lemma_prefix_without_is(text@, ':', name@.len() as int);
        assert(text@.subrange(0, name@.len() as int) =~= name@);
        assert(text@.subrange(name@.len() as int + 1, text@.len() as int) =~= secret@);
    }
    Ok(Auth { username: name.to_owned(), password: secret.to_owned() })
}

/// Decodes a `Basic` authorization header into a credential.
pub fn validate_header(s: &str) -> (outcome: Result<Auth, AuthorizationError>)
    ensures
        outcome_view(outcome) == header_outcome(encode_utf8(s@)),
{
    let header = s.as_bytes();
    let token = match basic_token(header) {
        Ok(token) => token,
        Err(e) => {
            return Err(e);
        },
    };
    match decode_base64(token) {
        Ok(decoded) => credential_from_decoded(decoded),
        Err(e) => Err(AuthorizationError::from(e)),
    }
}

/// What `base64::encode` returns on `bytes`.
pub uninterp spec fn base64_encoded(bytes: Seq<u8>) -> Seq<char>;

/// A character of standard base64: a letter, a digit, `+`, `/`, or the
/// padding `=`.
pub open spec fn is_base64_symbol(c: char) -> bool {
    ||| 'A' <= c <= 'Z'
    ||| 'a' <= c <= 'z'
    ||| '0' <= c <= '9'
    ||| c == '+'
    ||| c == '/'
    ||| c == '='
}

/// `base64::decode` reads `text` as `bytes`.
pub open spec fn reads_back(text: Seq<char>, bytes: Seq<u8>) -> bool {
    base64_decoded(encode_utf8(text)) == Ok::<Seq<u8>, base64::DecodeError>(bytes)
}

/// The longest input whose base64 form has a length that fits in a `usize`.
pub open spec fn encodable(len: nat) -> bool {
    4 * ((len + 2) / 3) <= usize::MAX
}

/// Calls `base64::encode`, which writes standard base64 with padding: four
/// symbols for every three bytes begun, and text that `base64::decode` reads
/// back as the bytes given. The result is a function of the bytes alone; the
/// call needs the length of the text to fit in a `usize`.
#[verifier::external_body]
fn encode_base64(bytes: &[u8]) -> (text: String)
    requires
        encodable(bytes@.len()),
    ensures
        text@ == base64_encoded(bytes@),
        text@.len() == 4 * ((bytes@.len() + 2) / 3),
        forall|i: int| 0 <= i < text@.len() ==> is_base64_symbol(#[trigger] text@[i]),
        reads_back(text@, bytes@),
{
    base64::encode(bytes)
}

/// The bytes that carry a credential: the username, a colon, the password.
pub open spec fn credential_bytes(username: Seq<char>, password: Seq<char>) -> Seq<u8> {
    encode_utf8(username) + seq![COLON] + encode_utf8(password)
}

/// The header that carries a credential.
pub open spec fn encoded_header(username: Seq<char>, password: Seq<char>) -> Seq<char> {
    "Basic "@ + base64_encoded(credential_bytes(username, password))
}

/// The scheme prefix is the text `Basic` and one space.
proof fn lemma_basic_prefix()
    ensures
        encode_utf8("Basic "@) == basic_prefix(),
        "Basic "@.len() == 6,
{
    reveal_strlit("Basic ");
    let p = "Basic "@;
    assert(is_ascii_chars(p));
    is_ascii_chars_encode_utf8(p);
    assert(encode_utf8(p) =~= basic_prefix());
}

/// A header made of the scheme prefix and base64 text that decodes to a
/// credential's bytes is decoded to that credential, where the username
/// holds no colon.
proof fn lemma_encoded_header_decodes(username: Seq<char>, password: Seq<char>, text: Seq<char>)
    requires
        !username.contains(':'),
        text.len() > 0,
        forall|i: int| 0 <= i < text.len() ==> is_base64_symbol(#[trigger] text[i]),
        base64_decoded(encode_utf8(text)) == Ok::<Seq<u8>, base64::DecodeError>(
            credential_bytes(username, password),
        ),
    ensures
        header_outcome(encode_utf8("Basic "@ + text)) == Ok::<
            (Seq<char>, Seq<char>),
            AuthorizationError,
        >((username, password)),
{
    let token = encode_utf8(text);
    let header = encode_utf8("Basic "@ + text);
    lemma_basic_prefix();
    lemma_encode_concat("Basic "@, text);
    assert(is_ascii_chars(text));
    is_ascii_chars_encode_utf8(text);
    assert(header.subrange(0, 6) =~= basic_prefix());
    assert(header.subrange(6, header.len() as int) =~= token);
    assert forall|i: int| 0 <= i < token.len() implies token[i] != SPACE by {
        assert(is_base64_symbol(text[i]));
        assert(token[i] == text[i] as u8);
    }
    assert(token_of(header) == Ok::<Seq<u8>, AuthorizationError>(token));

    let joined = username + seq![':'] + password;
    let bytes = credential_bytes(username, password);
    lemma_encode_ascii_char(':');
    lemma_encode_concat(username, seq![':']);
    lemma_encode_concat(username + seq![':'], password);
    assert(encode_utf8(joined) == bytes);
    encode_utf8_valid_utf8(joined);
    encode_utf8_decode_utf8(joined);
    assert forall|j: int| 0 <= j < username.len() implies joined[j] != ':' by {
        assert(joined[j] == username[j]);
    }
    assert(joined[username.len() as int] == ':');
    lemma_prefix_without_is(joined, ':', username.len() as int);
    assert(joined.subrange(0, username.len() as int) =~= username);
    assert(joined.subrange(username.len() as int + 1, joined.len() as int) =~= password);
}

/// The longest credential, in bytes, that [`encode_header`] takes.
pub const MAX_CREDENTIAL_BYTES: usize = (usize::MAX / 4 - 1) * 3;

/// The `Basic` authorization header that carries a credential, which
/// [`validate_header`] decodes to the same credential. `None` where the
/// username holds a colon, which would end it early, or where the two are
/// longer than [`MAX_CREDENTIAL_BYTES`].
pub fn encode_header(username: &str, password: &str) -> (header: Option<String>)
    ensures
        header is Some <==> !username@.contains(':') && credential_bytes(
            username@,
            password@,
        ).len() <= MAX_CREDENTIAL_BYTES,
        match header {
            Some(h) => {
                &&& h@ == encoded_header(username@, password@)
                &&& header_outcome(encode_utf8(h@)) == Ok::<
                    (Seq<char>, Seq<char>),
                    AuthorizationError,
                >((username@, password@))
            },
            None => true,
        },
{
    let name = username.as_bytes();
    let secret = password.as_bytes();
    let mut i: usize = 0;
    while i < name.len()
        invariant
            i <= name.len(),
            name@ == encode_utf8(username@),
            forall|j: int| 0 <= j < i ==> name@[j] != COLON,
        decreases name.len() - i,
    {
        if name[i] == COLON {
            proof {
                if !username@.contains(':') {
                    assert((COLON as u32) as char == ':');
                    lemma_encode_without(username@, COLON);
                    assert(encode_utf8(username@)[i as int] == COLON);
                }
            }
            return None;
        }
        i += 1;
    }
    proof {
        encode_utf8_valid_utf8(username@);
        encode_utf8_decode_utf8(username@);
        lemma_decode_without(name@, COLON);
    }
    if name.len() >= MAX_CREDENTIAL_BYTES || secret.len() > MAX_CREDENTIAL_BYTES - 1 - name.len() {
        return None;
    }
    let mut joined: Vec<u8> = Vec::new();
    joined.extend_from_slice(name);
    joined.push(COLON);
    joined.extend_from_slice(secret);
    assert(joined@ =~= credential_bytes(username@, password@));
    let text = encode_base64(joined.as_slice());
    proof {
        lemma_encoded_header_decodes(username@, password@, text@);
    }
    Some("Basic ".to_owned().concat(text.as_str()))
}

} // verus!
