//! The calls into `jsonwebtoken` and `base64` that reading a token takes.
use crate::json::{json_object_of, json_strings_of, member_of, string_member_of, text_view};
use crate::model::texts;
use base64::prelude::{Engine, BASE64_URL_SAFE_NO_PAD};
use jsonwebtoken::errors::ErrorKind;
use jsonwebtoken::jwk::{AlgorithmParameters, Jwk, JwkSet};
use jsonwebtoken::{decode, decode_header, DecodingKey, Validation};
use serde::de::Error;
use serde_json::value::RawValue;
use std::collections::BTreeMap;
use vstd::prelude::*;
use vstd::utf8::encode_utf8;

verus! {

/// `jsonwebtoken::errors::Error`: why a token is not valid.
#[verifier::external_type_specification]
#[verifier::external_body]
pub struct ExJwtError(jsonwebtoken::errors::Error);

/// `base64::DecodeError`: why a text is not Base64.
#[verifier::external_type_specification]
#[verifier::external_body]
pub struct ExDecodeError(base64::DecodeError);

/// Writes `err` as its `Display` does. The wording is that of `jsonwebtoken`.
#[verifier::external_body]
pub(crate) fn jwt_error_text(err: &jsonwebtoken::errors::Error) -> (text: String) {
    err.to_string()
}

/// Calls `custom` of `serde::de::Error` for a `serde_json::Error` with this message, and
/// turns it into a `jsonwebtoken` error, as claims that are not those asked for make one.
#[verifier::external_body]
pub(crate) fn claim_error(message: &str) -> (err: jsonwebtoken::errors::Error) {
    serde_json::Error::custom(message).into()
}

/// Turns `ErrorKind::ExpiredSignature` of `jsonwebtoken` into an error, as a token that
/// has expired makes one.
#[verifier::external_body]
pub(crate) fn expired_error() -> (err: jsonwebtoken::errors::Error) {
    ErrorKind::ExpiredSignature.into()
}

/// Writes `err` as its `Display` does. The wording is that of `base64`.
#[verifier::external_body]
pub(crate) fn base64_error_text(err: &base64::DecodeError) -> (text: String) {
    err.to_string()
}

/// The bytes that `text` encodes in the URL-safe alphabet of Base64 without
/// padding; nothing if it encodes none.
pub uninterp spec fn base64url_of(text: Seq<char>) -> Option<Seq<u8>>;

/// Calls `Engine::decode` of `base64` with the URL-safe alphabet and no padding.
/// The result is named: it is a function of the text alone.
#[verifier::external_body]
pub(crate) fn base64url(text: &str) -> (res: Result<Vec<u8>, base64::DecodeError>)
    ensures
        match res {
            Ok(bytes) => base64url_of(text@) == Some(bytes@),
            Err(_) => base64url_of(text@) is None,
        },
{
    BASE64_URL_SAFE_NO_PAD.decode(text)
}

/// What the header of a token says of its signature.
#[derive(Debug, Clone)]
pub struct TokenHeader {
    /// The id of the key that it was made with, if it says so.
    pub kid: Option<String>,
    /// The name of the algorithm that it was made with.
    pub alg: String,
}

/// The key id and the algorithm that the header of `token` gives; nothing if it is
/// no token with a header.
pub uninterp spec fn jwt_header_of(token: Seq<char>) -> Option<(Option<Seq<char>>, Seq<char>)>;

/// Calls `jsonwebtoken::decode_header`. The result is named: it is a function of the
/// token alone.
#[verifier::external_body]
pub(crate) fn jwt_header(token: &str) -> (res: Result<TokenHeader, jsonwebtoken::errors::Error>)
    ensures
        match res {
            Ok(header) => jwt_header_of(token@) == Some((text_view(header.kid), header.alg@)),
            Err(_) => jwt_header_of(token@) is None,
        },
{
    let header = decode_header(token)?;
    Ok(TokenHeader { kid: header.kid, alg: format!("{:?}", header.alg) })
}

/// What a key set says of a key.
#[derive(Debug, Clone)]
pub struct KeyInfo {
    /// Its id, if it has one.
    pub kid: Option<String>,
    /// Its Base64 text, if it is an octet key pair.
    pub octets: Option<String>,
}

/// What a [`KeyInfo`] holds, as mathematical values.
pub struct KeyInfoView {
    pub kid: Option<Seq<char>>,
    pub octets: Option<Seq<char>>,
}

impl View for KeyInfo {
    type V = KeyInfoView;

    open spec fn view(&self) -> KeyInfoView {
        KeyInfoView { kid: text_view(self.kid), octets: text_view(self.octets) }
    }
}

/// What each of `keys` holds.
pub open spec fn keys_view(keys: Seq<KeyInfo>) -> Seq<KeyInfoView> {
    keys.map_values(|key: KeyInfo| key@)
}

/// The keys in the JSON Web Key Set `body`, in order; nothing if it is none.
pub uninterp spec fn jwks_of(body: Seq<char>) -> Option<Seq<KeyInfoView>>;

/// Calls `serde_json::from_str` for a `jsonwebtoken::jwk::JwkSet`, and hands out the
/// ids of its keys and the text of those that are octet key pairs. The result is
/// named: it is a function of the text alone.
#[verifier::external_body]
pub(crate) fn jwks(body: &str) -> (res: Result<Vec<KeyInfo>, serde_json::Error>)
    ensures
        match res {
            Ok(keys) => jwks_of(body@) == Some(keys_view(keys@)),
            Err(_) => jwks_of(body@) is None,
        },
{
    let set: JwkSet = serde_json::from_str(body)?;
    let info = |key: Jwk| KeyInfo {
        kid: key.common.key_id,
        octets: match key.algorithm {
            AlgorithmParameters::OctetKeyPair(pair) => Some(pair.x),
            AlgorithmParameters::OctetKey(_) => None,
            AlgorithmParameters::RSA(_) => None,
            AlgorithmParameters::EllipticCurve(_) => None,
        },
    };
    Ok(set.keys.into_iter().map(info).collect())
}

/// Whether `key` is an octet key pair that is too short for EdDSA: one of fewer than
/// 32 bytes.
pub open spec fn short_octets(key: KeyInfoView) -> bool {
    key.octets matches Some(x) && base64url_of(x) matches Some(bytes) && bytes.len() < 32
}

/// The claims of `token` as a JSON text, where the key at `index` of the key set
/// `body` verifies its signature by the algorithm `alg`; else nothing.
pub uninterp spec fn signed_claims_of(
    token: Seq<char>,
    body: Seq<char>,
    index: nat,
    alg: Seq<char>,
) -> Option<Seq<char>>;

/// Whether a validation at the time `now`, in seconds of the Unix epoch, accepts
/// `token`: the key at `index` of the key set `body` verifies its signature by the
/// algorithm `alg`, the claims in `required` are there, issuer and audience are those
/// given, and, where `check_expiry` holds, it has not expired.
pub uninterp spec fn jwt_accepted(
    token: Seq<char>,
    body: Seq<char>,
    index: nat,
    alg: Seq<char>,
    issuer: Seq<char>,
    audience: Seq<char>,
    required: Seq<Seq<char>>,
    check_expiry: bool,
    now: u64,
) -> bool;

/// Calls `jsonwebtoken::decode` with the key at `index` of the key set `body`, and
/// writes the claims as JSON.
///
/// Whether it succeeds is a function of its arguments and of the time at which it is
/// called. That outcome is named; of the time nothing is claimed. Where it succeeds, the signature was verified, an issuer or an audience that is a
/// string is the one that was asked for, and an audience that is a list of strings
/// holds it. A claim that was required is there: the subject is then a string. A key
/// that is too short for EdDSA would make it panic.
#[verifier::external_body]
pub(crate) fn verify_jwt(
    token: &str,
    body: &str,
    index: usize,
    alg: &str,
    issuer: &str,
    audience: &str,
    required: &Vec<String>,
    check_expiry: bool,
) -> (res: Result<String, jsonwebtoken::errors::Error>)
    requires
        jwks_of(body@) matches Some(keys) && index < keys.len() && !(alg@ == "EdDSA"@
            && short_octets(keys[index as int])),
        jwt_header_of(token@) matches Some(header) && header.1 == alg@,
    ensures
        exists|now: u64| #[trigger]
            jwt_accepted(
                token@,
                body@,
                index as nat,
                alg@,
                issuer@,
                audience@,
                texts(required@),
                check_expiry,
                now,
            ) == (res is Ok),
        res matches Ok(claims) ==> {
            let json = encode_utf8(claims@);
            &&& signed_claims_of(token@, body@, index as nat, alg@) == Some(claims@)
            &&& string_member_of(json, "iss"@) matches Some(iss) ==> iss == issuer@
            &&& string_member_of(json, "aud"@) matches Some(aud) ==> aud == audience@
            &&& json_object_of(json) matches Some(members) ==> (member_of(members, "aud"@) matches Some(
                aud,
            ) ==> (json_strings_of(aud) matches Some(names) ==> names.contains(audience@)))
            &&& texts(required@).contains("sub"@) ==> string_member_of(json, "sub"@) is Some
        },
{
    let set: JwkSet = serde_json::from_str(body)?;
    let key = DecodingKey::from_jwk(&set.keys[index])?;
    let mut validation = Validation::new(alg.parse()?);
    validation.set_issuer(&[issuer]);
    validation.set_audience(&[audience]);
    validation.set_required_spec_claims(required);
    validation.validate_exp = check_expiry;
    let data = decode::<BTreeMap<String, Box<RawValue>>>(token, &key, &validation)?;
    Ok(serde_json::to_string(&data.claims)?)
}

/// The view of a key set has a key for each of its keys, in order, each with its id and
/// its text.
pub proof fn lemma_keys_view(keys: Seq<KeyInfo>)
    ensures
        keys_view(keys).len() == keys.len(),
        forall|i: int|
            0 <= i < keys.len() ==> (#[trigger] keys_view(keys)[i]).kid == text_view(keys[i].kid)
                && keys_view(keys)[i].octets == text_view(keys[i].octets),
{
}

} // verus!
