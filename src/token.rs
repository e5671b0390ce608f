use vstd::prelude::*;
use vstd::utf8::encode_utf8;
use base64::engine::general_purpose::URL_SAFE_NO_PAD;
use base64::Engine;
use jsonwebtoken::{Algorithm, DecodingKey, EncodingKey};
use crate::config::AuthConfig;
use crate::error::AuthError;
use crate::models::Claims;
use crate::text::lemma_split_at;
use crate::payload::{
    bytes_at, claims_from_json, claims_json, claims_to_json, find_first,
    lemma_claims_json_injective,
};

verus! {

#[verifier::external_type_specification]
#[verifier::external_body]
pub struct ExJwtError(jsonwebtoken::errors::Error);

/// The unpadded URL-safe base64 text of some bytes.
pub uninterp spec fn b64url(bytes: Seq<u8>) -> Seq<char>;

/// The bytes that an unpadded URL-safe base64 text stands for, if it is one.
pub uninterp spec fn b64url_decoded(text: Seq<char>) -> Option<Seq<u8>>;

/// The HMAC-SHA256 signature of a message under a secret, as unpadded
/// URL-safe base64 text.
pub uninterp spec fn hs256_signature(message: Seq<u8>, secret: Seq<u8>) -> Seq<char>;

/// A character of the URL-safe base64 alphabet.
pub open spec fn is_b64url_char(c: char) -> bool {
    ('A' <= c <= 'Z') || ('a' <= c <= 'z') || ('0' <= c <= '9') || c == '-' || c == '_'
}

pub open spec fn is_b64url_text(s: Seq<char>) -> bool {
    forall|i: int| 0 <= i < s.len() ==> is_b64url_char(#[trigger] s[i])
}

/// Relies on base64's `URL_SAFE_NO_PAD` engine: `encode` writes the URL-safe
/// alphabet without padding, and decoding that text gives the bytes back.
#[verifier::external_body]
fn b64url_encode(bytes: &[u8]) -> (r: String)
    ensures
        r@ == b64url(bytes@),
        is_b64url_text(r@),
        b64url_decoded(r@) == Some(bytes@),
{
    URL_SAFE_NO_PAD.encode(bytes)
}

/// Relies on base64's `URL_SAFE_NO_PAD` engine: `decode` of a text.
#[verifier::external_body]
fn b64url_decode(text: &str) -> (r: Option<Vec<u8>>)
    ensures
        r matches Some(v) ==> b64url_decoded(text@) == Some(v@),
        r is None ==> b64url_decoded(text@) is None,
{
    URL_SAFE_NO_PAD.decode(text).ok()
}

/// What serde_json makes of a JSON text: read into a `serde_json::Value` and
/// written back compactly, if the text is JSON.
pub uninterp spec fn json_normal(text: Seq<u8>) -> Option<Seq<u8>>;

/// Relies on `serde_json::from_slice` into a `serde_json::Value` and
/// `serde_json::to_vec` of that value: the compact form, object keys sorted
/// (the map is a `BTreeMap`), strings escaped as serde_json escapes them.
#[verifier::external_body]
fn normalize_json(text: &[u8]) -> (r: Option<Vec<u8>>)
    ensures
        r matches Some(v) ==> json_normal(text@) == Some(v@),
        r is None ==> json_normal(text@) is None,
{
    serde_json::from_slice::<serde_json::Value>(text).ok().and_then(|v| serde_json::to_vec(&v).ok())
}

/// Relies on `jsonwebtoken::crypto::sign` with `Algorithm::HS256` and a key from
/// `EncodingKey::from_secret`: the HMAC-SHA256 of the message, base64-encoded
/// with the URL-safe alphabet and no padding. For the HMAC algorithms it
/// always returns `Ok`.
#[verifier::external_body]
fn hs256_sign(message: &[u8], secret: &[u8]) -> (r: Result<String, jsonwebtoken::errors::Error>)
    ensures
        r is Ok,
        r matches Ok(s) ==> s@ == hs256_signature(message@, secret@) && is_b64url_text(s@),
{
    jsonwebtoken::crypto::sign(message, &EncodingKey::from_secret(secret), Algorithm::HS256)
}

/// Relies on `jsonwebtoken::crypto::verify` with `Algorithm::HS256` and a key
/// from `DecodingKey::from_secret`: it signs the message again with the secret
/// and compares the two texts in constant time. For the HMAC algorithms it
/// always returns `Ok`.
#[verifier::external_body]
fn hs256_verify(signature: &str, message: &[u8], secret: &[u8]) -> (r: Result<
    bool,
    jsonwebtoken::errors::Error,
>)
    ensures
        r is Ok,
        r matches Ok(b) ==> b == (signature@ == hs256_signature(message@, secret@)),
{
    jsonwebtoken::crypto::verify(signature, message, &DecodingKey::from_secret(secret), Algorithm::HS256)
}

/// `{"alg":"HS256"`: how the normal form of a header that names the pinned
/// algorithm begins.
pub open spec fn pinned_alg() -> Seq<u8> {
    seq![123u8, 34u8, 97u8, 108u8, 103u8, 34u8, 58u8, 34u8, 72u8, 83u8, 50u8, 53u8, 54u8, 34u8]
}

/// The header that tokens are issued with, `{"alg":"HS256","typ":"JWT"}`.
pub open spec fn header_json() -> Seq<u8> {
    pinned_alg() + seq![44u8, 34u8, 116u8, 121u8, 112u8, 34u8, 58u8, 34u8, 74u8, 87u8, 84u8, 34u8, 125u8]
}

/// Whether the normal form of a header names HS256 as its algorithm. Keys
/// stand sorted there, so `alg`, which sorts before every other registered
/// header parameter, comes first.
pub open spec fn pins_hs256(normal_header: Seq<u8>) -> bool {
    &&& normal_header.len() > 14
    &&& normal_header.subrange(0, 14) == pinned_alg()
    &&& (normal_header[14] == 44u8 || normal_header[14] == 125u8)
}

/// The header part of a token decodes to a JSON header that names HS256.
pub open spec fn header_pins_hs256(header: Seq<char>) -> bool {
    match b64url_decoded(header) {
        Some(h) => match json_normal(h) {
            Some(n) => pins_hs256(n),
            None => false,
        },
        None => false,
    }
}

/// The payload part of a token decodes to a JSON object that reads as the
/// given claims, whatever its spacing, key order or escapes.
pub open spec fn payload_carries(payload: Seq<char>, id: i32, username: Seq<char>, exp: u64) -> bool {
    match b64url_decoded(payload) {
        Some(p) => json_normal(p) == Some(claims_json(id, username, exp)),
        None => false,
    }
}

/// The HS256 signature of a header and a payload part under `secret`.
pub open spec fn signature_of(header: Seq<char>, payload: Seq<char>, secret: Seq<u8>) -> Seq<char> {
    hs256_signature(encode_utf8(header + seq!['.'] + payload), secret)
}

/// `token` is the header part, the payload part and their signature under
/// `secret`, each a URL-safe base64 text, joined by dots.
pub open spec fn signed_parts(token: Seq<char>, secret: Seq<u8>, header: Seq<char>, payload: Seq<char>) -> bool {
    &&& is_b64url_text(header)
    &&& is_b64url_text(payload)
    &&& is_b64url_text(signature_of(header, payload, secret))
    &&& token == header + seq!['.'] + payload + seq!['.'] + signature_of(header, payload, secret)
}

/// `token` is signed with `secret` under HS256, names HS256 in its header, and
/// carries the given claims.
pub open spec fn carries(token: Seq<char>, secret: Seq<u8>, id: i32, username: Seq<char>, exp: u64) -> bool {
    exists|header: Seq<char>, payload: Seq<char>|
        #[trigger] signed_parts(token, secret, header, payload) && header_pins_hs256(header)
            && payload_carries(payload, id, username, exp)
}

/// Whether `token` is accepted at time `now` as carrying the given identity:
/// it carries it under this secret, and it has not expired.
pub open spec fn accepts(
    token: Seq<char>,
    secret: Seq<u8>,
    now: u64,
    id: i32,
    username: Seq<char>,
    exp: u64,
) -> bool {
    carries(token, secret, id, username, exp) && now < exp
}

/// Whether serde_json's reader gives back the header and the claims object as
/// this library writes them, so that an issued token reads back as issued.
pub open spec fn issuable(id: i32, username: Seq<char>, exp: u64) -> bool {
    &&& json_normal(header_json()) == Some(header_json())
    &&& json_normal(claims_json(id, username, exp)) == Some(claims_json(id, username, exp))
}

/// Whether a token can be issued at time `now`: the expiry fits in `u64` and
/// the claims read back as issued.
pub open spec fn can_issue(config: &AuthConfig, id: i32, username: Seq<char>, now: u64) -> bool {
    now + config.lifetime_spec() <= u64::MAX && issuable(
        id,
        username,
        (now + config.lifetime_spec()) as u64,
    )
}

/// Whether serde_json's normal form of a JSON text is the text itself.
fn is_normal_json(text: &[u8]) -> (r: bool)
    ensures
        r == (json_normal(text@) == Some(text@)),
{
    match normalize_json(text) {
        Some(n) => {
            let same = n.len() == text.len() && bytes_at(n.as_slice(), 0, text);
            proof {
                if same {
                    assert(n@ =~= n@.subrange(0, text@.len() as int));
                } else if n@ == text@ {
                    assert(n@.subrange(0, text@.len() as int) =~= text@);
                }
            }
            same
        },
        None => false,
    }
}

/// Issues a session token for an account at time `now`: its claims expire one
/// configured lifetime after `now`. It fails when that instant does not fit in
/// `u64`, or when serde_json would not read the token back as issued.
pub fn generate_token(config: &AuthConfig, id: i32, username: String, now: u64) -> (r: Result<
    String,
    AuthError,
>)
    requires
        config.wf(),
    ensures
        r is Ok <==> can_issue(config, id, username@, now),
        r matches Ok(t) ==> carries(
            t@,
            config.secret_spec(),
            id,
            username@,
            (now + config.lifetime_spec()) as u64,
        ),
        r matches Err(e) ==> e == AuthError::Configuration,
{
    let exp = match now.checked_add(config.lifetime_secs()) {
        Some(e) => e,
        None => {
            return Err(AuthError::Configuration);
        },
    };
    proof {
        reveal_strlit(".");
    }
    let ghost name = username@;
    let claims = Claims { id, username, exp };
    let payload = claims_to_json(&claims);
    let header: [u8; 27] = [
        123, 34, 97, 108, 103, 34, 58, 34, 72, 83, 50, 53, 54, 34, 44, 34, 116, 121, 112, 34,
        58, 34, 74, 87, 84, 34, 125,
    ];
    assert(header@ =~= header_json());
    if !is_normal_json(header.as_slice()) || !is_normal_json(payload.as_slice()) {
        return Err(AuthError::Configuration);
    }
    let header_part = b64url_encode(header.as_slice());
    let payload_part = b64url_encode(payload.as_slice());
    let mut message = header_part.clone();
    message.append(".");
    message.append(payload_part.as_str());
    let signature = match hs256_sign(message.as_str().as_bytes(), config.secret()) {
        Ok(s) => s,
        // the HMAC signer does not fail
        Err(_) => {
            return Err(AuthError::Configuration);
        },
    };
    let ghost input = message@;
    let mut token = message;
    token.append(".");
    token.append(signature.as_str());
    proof {
        let key = config.secret_spec();
        let h = header_part@;
        let p = payload_part@;
        assert(input =~= h + seq!['.'] + p);
        assert(token@ =~= h + seq!['.'] + p + seq!['.'] + signature_of(h, p, key));
        assert(header_json().subrange(0, 14) =~= pinned_alg());
        assert(header_json()[14] == 44u8);
        assert(signed_parts(token@, key, h, p));
        assert(header_pins_hs256(h));
        assert(payload_carries(p, id, name, exp));
    }
    Ok(token)
}

proof fn lemma_ascii_byte(c: char)
    requires
        c <= '\x7f',
    ensures
        (c as u8 == 46u8) <==> (c == '.'),
        is_b64url_char(c) <==> ((65 <= c as u8 <= 90) || (97 <= c as u8 <= 122) || (48 <= c as u8
            <= 57) || c as u8 == 45 || c as u8 == 95),
{
}

proof fn lemma_b64url_text_is_ascii(s: Seq<char>)
    requires
        is_b64url_text(s),
    ensures
        vstd::utf8::is_ascii_chars(s),
        forall|i: int| 0 <= i < s.len() ==> #[trigger] s[i] != '.',
{
}

/// A token carries one identity only.
pub proof fn lemma_carries_unique(
    token: Seq<char>,
    secret: Seq<u8>,
    id1: i32,
    username1: Seq<char>,
    exp1: u64,
    id2: i32,
    username2: Seq<char>,
    exp2: u64,
)
    requires
        carries(token, secret, id1, username1, exp1),
        carries(token, secret, id2, username2, exp2),
    ensures
        id1 == id2,
        username1 == username2,
        exp1 == exp2,
{
    let (h1, p1) = choose|h: Seq<char>, p: Seq<char>|
        #[trigger] signed_parts(token, secret, h, p) && header_pins_hs256(h) && payload_carries(
            p,
            id1,
            username1,
            exp1,
        );
    let (h2, p2) = choose|h: Seq<char>, p: Seq<char>|
        #[trigger] signed_parts(token, secret, h, p) && header_pins_hs256(h) && payload_carries(
            p,
            id2,
            username2,
            exp2,
        );
    let s1 = signature_of(h1, p1, secret);
    let s2 = signature_of(h2, p2, secret);
    lemma_b64url_text_is_ascii(h1);
    lemma_b64url_text_is_ascii(h2);
    lemma_b64url_text_is_ascii(p1);
    lemma_b64url_text_is_ascii(p2);
    assert(token =~= h1 + seq!['.'] + (p1 + seq!['.'] + s1));
    assert(token =~= h2 + seq!['.'] + (p2 + seq!['.'] + s2));
    lemma_split_at(h1, p1 + seq!['.'] + s1, h2, p2 + seq!['.'] + s2, '.');
    lemma_split_at(p1, s1, p2, s2, '.');
    lemma_claims_json_injective(id1, username1, exp1, id2, username2, exp2);
}

/// A token issued at time `t` with lifetime `l` is accepted one second before
/// `t + l`, as the identity it was issued for, and one second after `t + l` it
/// is accepted as no identity at all.
pub proof fn lemma_token_lifetime(
    token: Seq<char>,
    secret: Seq<u8>,
    id: i32,
    username: Seq<char>,
    t: u64,
    l: u64,
)
    requires
        l > 0,
        t + l < u64::MAX,
        carries(token, secret, id, username, (t + l) as u64),
    ensures
        accepts(token, secret, (t + l - 1) as u64, id, username, (t + l) as u64),
        forall|id2: i32, username2: Seq<char>, exp2: u64|
            !#[trigger] accepts(token, secret, (t + l + 1) as u64, id2, username2, exp2),
{
    assert forall|id2: i32, username2: Seq<char>, exp2: u64|
        !#[trigger] accepts(token, secret, (t + l + 1) as u64, id2, username2, exp2) by {
        if accepts(token, secret, (t + l + 1) as u64, id2, username2, exp2) {
            lemma_carries_unique(token, secret, id, username, (t + l) as u64, id2, username2, exp2);
        }
    }
}

/// Whether every character of a text lies in the URL-safe base64 alphabet.
fn is_b64url_str(s: &str) -> (r: bool)
    requires
        s.is_ascii(),
    ensures
        r == is_b64url_text(s@),
{
    let bytes = s.as_bytes();
    proof {
        vstd::string::is_ascii_spec_bytes(s);
        vstd::utf8::is_ascii_chars_encode_utf8(s@);
    }
    let mut i: usize = 0;
    while i < bytes.len()
        invariant
            0 <= i <= bytes@.len(),
            bytes@.len() == s@.len(),
            vstd::utf8::is_ascii_chars(s@),
            forall|k: int| 0 <= k < s@.len() ==> #[trigger] bytes@[k] == s@[k] as u8,
            forall|k: int| 0 <= k < i ==> is_b64url_char(#[trigger] s@[k]),
        decreases bytes@.len() - i,
    {
        let b = bytes[i];
        proof {
            lemma_ascii_byte(s@[i as int]);
        }
        if !((65 <= b && b <= 90) || (97 <= b && b <= 122) || (48 <= b && b <= 57) || b == 45
            || b == 95) {
            return false;
        }
        i = i + 1;
    }
    true
}

/// The dots of a token's parts are the dots that split it.
proof fn lemma_carried_by_parts(
    token: Seq<char>,
    secret: Seq<u8>,
    id: i32,
    username: Seq<char>,
    exp: u64,
    p0: Seq<char>,
    p1: Seq<char>,
    p2: Seq<char>,
)
    requires
        carries(token, secret, id, username, exp),
        token == p0 + seq!['.'] + p1 + seq!['.'] + p2,
        forall|i: int| 0 <= i < p0.len() ==> #[trigger] p0[i] != '.',
        forall|i: int| 0 <= i < p1.len() ==> #[trigger] p1[i] != '.',
    ensures
        signed_parts(token, secret, p0, p1),
        header_pins_hs256(p0),
        payload_carries(p1, id, username, exp),
        p2 == signature_of(p0, p1, secret),
{
    let (h, p) = choose|h: Seq<char>, p: Seq<char>|
        #[trigger] signed_parts(token, secret, h, p) && header_pins_hs256(h) && payload_carries(
            p,
            id,
            username,
            exp,
        );
    let sig = signature_of(h, p, secret);
    lemma_b64url_text_is_ascii(h);
    lemma_b64url_text_is_ascii(p);
    assert(token =~= h + seq!['.'] + (p + seq!['.'] + sig));
    assert(token =~= p0 + seq!['.'] + (p1 + seq!['.'] + p2));
    lemma_split_at(h, p + seq!['.'] + sig, p0, p1 + seq!['.'] + p2, '.');
    lemma_split_at(p, sig, p1, p2, '.');
}

/// Finds the two dots of a compact token. Every token signed in parts has
/// them, and no others.
fn split_token(token: &str, key: Ghost<Seq<u8>>) -> (r: Option<(usize, usize)>)
    ensures
        r matches Some((d1, d2)) ==> {
            &&& token.is_ascii()
            &&& d1 < d2 < token@.len()
            &&& token@[d1 as int] == '.'
            &&& token@[d2 as int] == '.'
            &&& forall|k: int| 0 <= k < d1 ==> #[trigger] token@[k] != '.'
            &&& forall|k: int| d1 < k < d2 ==> #[trigger] token@[k] != '.'
            &&& forall|k: int| d2 < k < token@.len() ==> #[trigger] token@[k] != '.'
        },
        forall|h: Seq<char>, p: Seq<char>| #[trigger] signed_parts(token@, key@, h, p) ==> r is Some,
{
    proof {
        assert forall|h: Seq<char>, p: Seq<char>| #[trigger] signed_parts(token@, key@, h, p) implies {
            let sig = signature_of(h, p, key@);
            &&& vstd::utf8::is_ascii_chars(token@)
            &&& token@[h.len() as int] == '.'
            &&& token@[h.len() as int + 1 + p.len()] == '.'
            &&& forall|k: int| 0 <= k < h.len() ==> #[trigger] token@[k] != '.'
            &&& forall|k: int| h.len() < k < h.len() + 1 + p.len() ==> #[trigger] token@[k] != '.'
            &&& forall|k: int| h.len() + 1 + p.len() < k < token@.len() ==> #[trigger] token@[k] != '.'
        } by {
            let sig = signature_of(h, p, key@);
            lemma_b64url_text_is_ascii(h);
            lemma_b64url_text_is_ascii(p);
            lemma_b64url_text_is_ascii(sig);
            let hl = h.len() as int;
            let pl = p.len() as int;
            assert forall|k: int| 0 <= k < hl implies #[trigger] token@[k] != '.' by {
                assert(token@[k] == h[k]);
            }
            assert forall|k: int| hl < k < hl + 1 + pl implies #[trigger] token@[k] != '.' by {
                assert(token@[k] == p[k - hl - 1]);
            }
            assert forall|k: int| hl + 1 + pl < k < token@.len() implies #[trigger] token@[k] != '.' by {
                assert(token@[k] == sig[k - hl - 2 - pl]);
            }
            assert(vstd::utf8::is_ascii_chars(token@)) by {
                assert forall|i: int| 0 <= i < token@.len() implies '\0' <= #[trigger] token@[i]
                    <= '\u{7f}' by {
                    if i < hl {
                        assert(token@[i] == h[i]);
                    } else if hl < i < hl + 1 + pl {
                        assert(token@[i] == p[i - hl - 1]);
                    } else if hl + 1 + pl < i {
                        assert(token@[i] == sig[i - hl - 2 - pl]);
                    }
                }
            }
        }
    }
    if !token.is_ascii() {
        return None;
    }
    let bytes = token.as_bytes();
    let len = bytes.len();
    proof {
        vstd::string::is_ascii_spec_bytes(token);
        vstd::utf8::is_ascii_chars_encode_utf8(token@);
        assert forall|k: int| 0 <= k < token@.len() implies (#[trigger] bytes@[k] == 46u8) <==> (
        token@[k] == '.') by {
            lemma_ascii_byte(token@[k]);
        }
    }
    let d1 = match find_first(bytes, 0, 46u8) {
        Some(d) => d,
        None => {
            proof {
                assert forall|h: Seq<char>, p: Seq<char>| #[trigger]
                    signed_parts(token@, key@, h, p) implies false by {
                    assert(bytes@[h.len() as int] == 46u8);
                }
            }
            return None;
        },
    };
    let d2 = match find_first(bytes, d1 + 1, 46u8) {
        Some(d) => d,
        None => {
            proof {
                assert forall|h: Seq<char>, p: Seq<char>| #[trigger]
                    signed_parts(token@, key@, h, p) implies false by {
                    if d1 < h.len() {
                        assert(token@[d1 as int] != '.');
                    }
                    assert(bytes@[h.len() as int] == 46u8);
                    assert(bytes@[h.len() as int + 1 + p.len()] == 46u8);
                }
            }
            return None;
        },
    };
    match find_first(bytes, d2 + 1, 46u8) {
        Some(d3) => {
            proof {
                assert forall|h: Seq<char>, p: Seq<char>| #[trigger]
                    signed_parts(token@, key@, h, p) implies false by {
                    assert(bytes@[h.len() as int] == 46u8);
                    if d1 < h.len() {
                        assert(token@[d1 as int] != '.');
                    }
                    assert(bytes@[h.len() as int + 1 + p.len()] == 46u8);
                    if d2 < h.len() + 1 + p.len() {
                        assert(token@[d2 as int] != '.');
                    }
                    assert(token@[d3 as int] == '.');
                }
            }
            None
        },
        None => Some((d1, d2)),
    }
}

/// Checks a bearer token at time `now`: its header must name the pinned
/// algorithm, its signature must match under the configured secret, its
/// payload must read as claims, and those must not have expired. Every
/// failure is the same authentication error.
#[verifier::rlimit(80)]
pub fn validate_token(config: &AuthConfig, token: &str, now: u64) -> (r: Result<Claims, AuthError>)
    requires
        config.wf(),
    ensures
        r matches Ok(c) ==> accepts(token@, config.secret_spec(), now, c.id, c.username@, c.exp),
        forall|id: i32, username: Seq<char>, exp: u64|
            #[trigger] accepts(token@, config.secret_spec(), now, id, username, exp) ==> (r matches Ok(
                c,
            ) && c.id == id && c.username@ == username && c.exp == exp),
        r matches Err(e) ==> e == AuthError::Authentication,
{
    let secret = config.secret();
    let ghost key = config.secret_spec();
    proof {
        reveal_strlit(".");
    }
    let parts = split_token(token, Ghost(key));
    let (d1, d2) = match parts {
        Some(p) => p,
        None => {
            proof {
                assert forall|id: i32, u: Seq<char>, e: u64| #[trigger]
                    accepts(token@, key, now, id, u, e) implies false by {
                    let (h, p) = choose|h: Seq<char>, p: Seq<char>|
                        #[trigger] signed_parts(token@, key, h, p) && header_pins_hs256(h)
                            && payload_carries(p, id, u, e);
                    assert(signed_parts(token@, key, h, p));
                }
            }
            return Err(AuthError::Authentication);
        },
    };
    let n = token.unicode_len();
    let part0 = token.substring_ascii(0, d1);
    let part1 = token.substring_ascii(d1 + 1, d2);
    let part2 = token.substring_ascii(d2 + 1, n);
    let message = token.substring_ascii(0, d2);
    proof {
        assert(token@ =~= part0@ + seq!['.'] + part1@ + seq!['.'] + part2@);
        assert(message@ =~= part0@ + seq!['.'] + part1@);
        assert forall|i: int| 0 <= i < part0@.len() implies #[trigger] part0@[i] != '.' by {
            assert(part0@[i] == token@[i]);
        }
        assert forall|i: int| 0 <= i < part1@.len() implies #[trigger] part1@[i] != '.' by {
            assert(part1@[i] == token@[d1 + 1 + i]);
        }
        assert forall|id: i32, u: Seq<char>, e: u64| #[trigger]
            accepts(token@, key, now, id, u, e) implies signed_parts(token@, key, part0@, part1@)
            && header_pins_hs256(part0@) && payload_carries(part1@, id, u, e) && part2@
            == signature_of(part0@, part1@, key) by {
            lemma_carried_by_parts(token@, key, id, u, e, part0@, part1@, part2@);
        }
    }
    if !is_b64url_str(part0) || !is_b64url_str(part1) || !is_b64url_str(part2) {
        proof {
            assert forall|id: i32, u: Seq<char>, e: u64| #[trigger]
                accepts(token@, key, now, id, u, e) implies false by {}
        }
        return Err(AuthError::Authentication);
    }
    match hs256_verify(part2, message.as_bytes(), secret) {
        Ok(true) => {},
        _ => {
            proof {
                assert forall|id: i32, u: Seq<char>, e: u64| #[trigger]
                    accepts(token@, key, now, id, u, e) implies false by {}
            }
            return Err(AuthError::Authentication);
        },
    }
    proof {
        assert(signed_parts(token@, key, part0@, part1@));
    }
    let header = match b64url_decode(part0) {
        Some(h) => h,
        None => {
            proof {
                assert forall|id: i32, u: Seq<char>, e: u64| #[trigger]
                    accepts(token@, key, now, id, u, e) implies false by {}
            }
            return Err(AuthError::Authentication);
        },
    };
    let normal_header = match normalize_json(header.as_slice()) {
        Some(h) => h,
        None => {
            proof {
                assert forall|id: i32, u: Seq<char>, e: u64| #[trigger]
                    accepts(token@, key, now, id, u, e) implies false by {}
            }
            return Err(AuthError::Authentication);
        },
    };
    let k: [u8; 14] = [123, 34, 97, 108, 103, 34, 58, 34, 72, 83, 50, 53, 54, 34];
    assert(k@ =~= pinned_alg());
    if normal_header.len() <= 14 || !bytes_at(normal_header.as_slice(), 0, k.as_slice()) || (
    normal_header[14] != 44u8 && normal_header[14] != 125u8) {
        proof {
            assert forall|id: i32, u: Seq<char>, e: u64| #[trigger]
                accepts(token@, key, now, id, u, e) implies false by {}
        }
        return Err(AuthError::Authentication);
    }
    let payload = match b64url_decode(part1) {
        Some(p) => p,
        None => {
            proof {
                assert forall|id: i32, u: Seq<char>, e: u64| #[trigger]
                    accepts(token@, key, now, id, u, e) implies false by {}
            }
            return Err(AuthError::Authentication);
        },
    };
    let normal_payload = match normalize_json(payload.as_slice()) {
        Some(p) => p,
        None => {
            proof {
                assert forall|id: i32, u: Seq<char>, e: u64| #[trigger]
                    accepts(token@, key, now, id, u, e) implies false by {}
            }
            return Err(AuthError::Authentication);
        },
    };
    let claims = match claims_from_json(normal_payload.as_slice()) {
        Some(c) => c,
        None => {
            proof {
                assert forall|id: i32, u: Seq<char>, e: u64| #[trigger]
                    accepts(token@, key, now, id, u, e) implies false by {}
            }
            return Err(AuthError::Authentication);
        },
    };
    proof {
        assert(header_pins_hs256(part0@));
        assert(payload_carries(part1@, claims.id, claims.username@, claims.exp));
    }
    if now < claims.exp {
        Ok(claims)
    } else {
        proof {
            assert forall|id: i32, u: Seq<char>, e: u64| #[trigger]
                accepts(token@, key, now, id, u, e) implies false by {}
        }
        Err(AuthError::Authentication)
    }
}

} // verus!
