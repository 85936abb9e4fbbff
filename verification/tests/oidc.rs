use base64::prelude::{Engine, BASE64_URL_SAFE_NO_PAD};
use jsonwebtoken::errors::ErrorKind;
use jsonwebtoken::{encode, EncodingKey, Header};
use sssd_oidc::model::User;
use sssd_oidc::oidc::{
    default_interval, discovery_url, extract_id_token_subject, poll_accepted, poll_refused,
    verified_claims, DeviceAuthResponse, DiscoveryDocument, FlowStep, FormRequest, OidcClient,
    OidcError, TokenResponse,
};
use sssd_oidc::pam::{
    account_code, authenticate_code, change_password_message, conclude_authentication, pam_user,
    sign_in_message, verify_token, AccountFailure, AuthFailure, PAM_AUTHINFO_UNAVAIL,
    PAM_AUTH_ERR, PAM_PERM_DENIED, PAM_SUCCESS,
};
use sssd_oidc::service::ServiceError;

const SECRET: &[u8] = b"a secret that is long enough for tests";

fn document(base: &str) -> DiscoveryDocument {
    DiscoveryDocument {
        issuer: Some(base.into()),
        token_endpoint: Some(format!("{base}/token")),
        device_authorization_endpoint: Some(format!("{base}/device")),
        jwks_uri: Some(format!("{base}/jwks")),
    }
}

fn client(base: &str) -> OidcClient {
    OidcClient::discover(document(base), base, "test-client-id", None, true).unwrap()
}

fn form(request: &FormRequest) -> Vec<(&str, &str)> {
    request.form.iter().map(|(k, v)| (k.as_str(), v.as_str())).collect()
}

fn token() -> TokenResponse {
    TokenResponse {
        access_token: "test-access-token-001".into(),
        id_token: None,
        token_type: "Bearer".into(),
    }
}

fn device(interval: u64) -> DeviceAuthResponse {
    DeviceAuthResponse {
        device_code: "test-device-code-001".into(),
        user_code: "ABCD-1234".into(),
        verification_uri: "http://idp/activate".into(),
        verification_uri_complete: None,
        expires_in: 600,
        interval,
    }
}

/// A key set with one symmetric key.
fn key_set(kid: &str) -> String {
    let k = BASE64_URL_SAFE_NO_PAD.encode(SECRET);
    format!(r#"{{"keys":[{{"kty":"oct","kid":"{kid}","alg":"HS256","k":"{k}"}}]}}"#)
}

fn now() -> u64 {
    let epoch = std::time::UNIX_EPOCH;
    std::time::SystemTime::now().duration_since(epoch).unwrap().as_secs()
}

fn in_an_hour() -> u64 {
    now() + 3600
}

fn signed(kid: Option<&str>, claims: &str) -> String {
    let mut header = Header::default();
    header.kid = kid.map(String::from);
    let claims: serde_json::Value = serde_json::from_str(claims).unwrap();
    encode(&header, &claims, &EncodingKey::from_secret(SECRET)).unwrap()
}

fn claims(sub: &str, iss: &str, aud: &str, exp: u64) -> String {
    format!(r#"{{"sub":"{sub}","iss":"{iss}","aud":{aud},"exp":{exp},"iat":17}}"#)
}

fn make_jwt(claims_json: &str) -> String {
    let header = BASE64_URL_SAFE_NO_PAD.encode(r#"{"alg":"RS256"}"#);
    let payload = BASE64_URL_SAFE_NO_PAD.encode(claims_json);
    format!("{header}.{payload}.fake-signature")
}

#[test]
fn extract_subject_from_valid_jwt() {
    let jwt = make_jwt(r#"{"sub":"user-uuid-alice-001","iss":"https://idp.example.com"}"#);
    let sub = extract_id_token_subject(&jwt).unwrap();
    assert_eq!(sub, "user-uuid-alice-001");
}

#[test]
fn extract_subject_missing_sub_claim() {
    let jwt = make_jwt(r#"{"iss":"https://idp.example.com"}"#);
    let err = extract_id_token_subject(&jwt).unwrap_err();
    assert!(err.message().contains("missing sub claim"));
}

#[test]
fn extract_subject_invalid_jwt_format() {
    let err = extract_id_token_subject("not-a-jwt").unwrap_err();
    assert!(err.message().contains("not a valid JWT"));
}

#[test]
fn extract_subject_reads_the_second_part_only() {
    let payload = BASE64_URL_SAFE_NO_PAD.encode(r#"{"sub":"a\"é"}"#);
    assert_eq!(extract_id_token_subject(&format!(".{payload}")).unwrap(), "a\"é");
    assert_eq!(extract_id_token_subject(&format!("x.{payload}.y.z")).unwrap(), "a\"é");
    let message = |jwt: &str| extract_id_token_subject(jwt).unwrap_err().message();
    assert!(message("a.!!.c").starts_with("failed to decode ID token: base64: "));
    assert!(message(&make_jwt("nonsense")).starts_with("failed to decode ID token: json: "));
    assert!(message(&make_jwt(r#"{"sub":5}"#)).starts_with("failed to decode ID token: json: "));
    assert_eq!(extract_id_token_subject(&make_jwt(r#"["alice"]"#)).unwrap(), "alice");
    assert!(message(&make_jwt("[]")).starts_with("failed to decode ID token: json: "));
    assert!(message(&make_jwt("[null]")).ends_with("missing sub claim"));
    assert_eq!(
        message(&make_jwt(r#"{"sub":null}"#)),
        "failed to decode ID token: missing sub claim"
    );
}

#[test]
fn oidc_discovery_parses_endpoints() {
    let client = client("http://127.0.0.1:8080");
    let endpoints = client.endpoints();
    assert!(endpoints.token_endpoint.contains("/token"));
    assert!(endpoints.device_authorization_endpoint.contains("/device"));
    assert!(endpoints.jwks_uri.contains("/jwks"));
    assert!(!endpoints.issuer.is_empty());
}

#[test]
fn discovery_asks_below_the_issuer() {
    let url = "https://idp/.well-known/openid-configuration";
    assert_eq!(discovery_url("https://idp"), url);
    assert_eq!(discovery_url("https://idp//"), url);
}

#[test]
fn discovery_reports_the_first_missing_field() {
    let missing = |doc| match OidcClient::discover(doc, "https://idp", "c", None, false) {
        Err(OidcError::MissingField(field)) => field,
        _ => panic!("a field is missing"),
    };
    let mut doc = document("https://idp");
    doc.jwks_uri = None;
    assert_eq!(missing(doc.clone()), "jwks_uri");
    doc.device_authorization_endpoint = None;
    assert_eq!(missing(doc.clone()), "device_authorization_endpoint");
    doc.token_endpoint = None;
    assert_eq!(missing(doc.clone()), "token_endpoint");
    doc.issuer = None;
    assert_eq!(missing(doc), "issuer");
    assert_eq!(
        OidcError::MissingField("issuer".into()).message(),
        "discovery document missing required field: issuer"
    );
}

#[test]
fn discovery_is_checked_for_issuer_and_https() {
    let discover = |base: &str, issuer_url: &str, allow_insecure: bool| {
        OidcClient::discover(document(base), issuer_url, "c", None, allow_insecure).err()
    };
    assert!(discover("https://idp", "https://idp/", false).is_none());
    assert!(discover("https://idp/", "https://idp", false).is_none());
    let err = discover("https://idp", "https://other", true).unwrap();
    assert!(matches!(err, OidcError::IssuerMismatch { .. }));
    assert_eq!(
        err.message(),
        "discovery issuer \"https://idp\" does not match configured issuer \"https://other\""
    );
    assert!(discover("http://idp", "http://idp", true).is_none());
    let err = discover("http://idp", "http://idp", false).unwrap();
    assert!(matches!(err, OidcError::InsecureEndpoint(_)));
    assert_eq!(err.message(), "endpoint is not HTTPS: http://idp/token");
    let mut doc = document("https://idp");
    doc.jwks_uri = Some("http://idp/jwks".into());
    match OidcClient::discover(doc.clone(), "https://idp", "c", None, false) {
        Err(OidcError::InsecureEndpoint(url)) => assert_eq!(url, "http://idp/jwks"),
        _ => panic!("the key set is not behind HTTPS"),
    }
    doc.device_authorization_endpoint = Some("ftp://idp/device".into());
    match OidcClient::discover(doc, "https://idp", "c", None, false) {
        Err(OidcError::InsecureEndpoint(url)) => assert_eq!(url, "ftp://idp/device"),
        _ => panic!("the device endpoint is not behind HTTPS"),
    }
}

#[test]
fn forms_carry_the_secret_if_there_is_one() {
    let public = client("https://idp");
    let request = public.request_device_code("openid");
    assert_eq!(request.url, "https://idp/device");
    assert_eq!(form(&request), vec![("client_id", "test-client-id"), ("scope", "openid")]);

    let doc = document("https://idp");
    let private = OidcClient::discover(doc, "https://idp", "c", Some("s"), false).unwrap();
    let request = private.request_device_code("openid");
    assert_eq!(
        form(&request),
        vec![("client_id", "c"), ("scope", "openid"), ("client_secret", "s")]
    );
    let request = private.poll_for_token("code");
    assert_eq!(request.url, "https://idp/token");
    assert_eq!(
        form(&request),
        vec![
            ("client_id", "c"),
            ("grant_type", "urn:ietf:params:oauth:grant-type:device_code"),
            ("device_code", "code"),
            ("client_secret", "s"),
        ]
    );
}

#[test]
fn polls_are_read_by_status_and_error() {
    assert!(poll_accepted(200) && poll_accepted(299));
    assert!(!poll_accepted(199) && !poll_accepted(300) && !poll_accepted(400));
    let refused = |error: &str| poll_refused(&format!(r#"{{"error":"{error}","x":[1]}}"#));
    assert!(matches!(refused("authorization_pending"), OidcError::AuthorizationPending));
    assert!(matches!(refused("slow_down"), OidcError::SlowDown));
    assert!(matches!(refused("expired_token"), OidcError::ExpiredToken));
    assert_eq!(refused("access_denied").message(), "token request denied: access_denied");
    assert_eq!(poll_refused("<html>").message(), "token request denied: <html>");
    // What is not read may be anything.
    // A record may be an array of its fields.
    assert!(matches!(poll_refused(r#"["slow_down"]"#), OidcError::SlowDown));
    for body in ["[]", r#"["slow_down",1]"#, "[1]"] {
        assert_eq!(poll_refused(body).message(), format!("token request denied: {body}"));
    }
    let odd = r#"{"x":[1e999,"\ud800"],"error":"slow_down"}"#;
    assert!(matches!(poll_refused(odd), OidcError::SlowDown));
    assert_eq!(poll_refused("{}").message(), "token request denied: {}");
    assert_eq!(
        poll_refused(r#"{"error":5}"#).message(),
        r#"token request denied: {"error":5}"#
    );
}

#[test]
fn device_code_flow_succeeds_after_pending() {
    let mut flow = client("https://idp").authenticate_device_flow(&device(0));
    assert!(flow.wake(5).is_ok());
    let pending = poll_refused(r#"{"error":"authorization_pending"}"#);
    assert!(matches!(flow.next(Err(pending)), FlowStep::Wait));
    assert!(flow.wake(10).is_ok());
    match flow.next(Ok(token())) {
        FlowStep::Done(Ok(token)) => {
            assert_eq!(token.access_token, "test-access-token-001");
            assert_eq!(token.token_type, "Bearer");
        }
        _ => panic!("the token ends the flow"),
    }
}

#[test]
fn device_code_flow_handles_expired_token() {
    let mut flow = client("https://idp").authenticate_device_flow(&device(0));
    let expired = poll_refused(r#"{"error":"expired_token"}"#);
    let step = flow.next(Err(expired));
    assert!(matches!(step, FlowStep::Done(Err(OidcError::ExpiredToken))));
}

#[test]
fn device_code_flow_ends_with_its_time() {
    let flow = client("https://idp").authenticate_device_flow(&device(5));
    assert!(flow.wake(599).is_ok());
    assert!(matches!(flow.wake(600), Err(OidcError::ExpiredToken)));
    assert_eq!(flow.wake(601).unwrap_err().message(), "device code has expired");
}

#[test]
fn device_code_flow_never_polls_faster() {
    assert_eq!(default_interval(), 5);
    let begin = |interval| client("https://idp").authenticate_device_flow(&device(interval));
    assert_eq!(begin(0).interval(), 5);
    assert_eq!(begin(4).interval(), 5);
    assert_eq!(begin(7).interval(), 7);
    let mut flow = begin(7);
    assert!(matches!(flow.next(Err(OidcError::SlowDown)), FlowStep::Wait));
    assert_eq!(flow.interval(), 12);
    assert!(matches!(flow.next(Err(OidcError::AuthorizationPending)), FlowStep::Wait));
    assert_eq!(flow.interval(), 12);
    let mut flow = begin(u64::MAX - 1);
    assert!(matches!(flow.next(Err(OidcError::SlowDown)), FlowStep::Wait));
    assert_eq!(flow.interval(), u64::MAX);
}

#[test]
fn validate_id_token_verifies_signature_and_claims() {
    let client = client("http://idp");
    let exp = in_an_hour();
    let json = claims("user-uuid-alice-001", "http://idp", r#""test-client-id""#, exp);
    let jwt = signed(Some("k1"), &json);
    let claims = client.validate_id_token(&jwt, Ok(key_set("k1")), now()).unwrap();
    assert_eq!(claims.sub, "user-uuid-alice-001");
    assert!(claims.iss.starts_with("http://"));
    assert_eq!(claims.exp, exp);
    assert_eq!(claims.iat, Some(17));
    assert_eq!(claims.aud, r#""test-client-id""#);
    // Without a key id the first key is taken.
    let jwt = signed(None, &json);
    assert!(client.validate_id_token(&jwt, Ok(key_set("other")), now()).is_ok());
}

#[test]
fn validate_id_token_refuses_what_is_not_right() {
    let client = client("http://idp");
    let aud = r#""test-client-id""#;
    let good = signed(Some("k1"), &claims("a", "http://idp", aud, in_an_hour()));
    let jwt = |res: Result<_, OidcError>| matches!(res, Err(OidcError::JwtValidation(_)));

    let other_issuer = signed(Some("k1"), &claims("a", "http://other", aud, in_an_hour()));
    assert!(jwt(client.validate_id_token(&other_issuer, Ok(key_set("k1")), now())));
    let other_client = signed(Some("k1"), &claims("a", "http://idp", r#""x""#, in_an_hour()));
    assert!(jwt(client.validate_id_token(&other_client, Ok(key_set("k1")), now())));
    let expired = signed(Some("k1"), &claims("a", "http://idp", aud, 1_000));
    assert!(jwt(client.validate_id_token(&expired, Ok(key_set("k1")), now())));
    let no_sub = format!(r#"{{"iss":"http://idp","aud":{aud},"exp":{}}}"#, in_an_hour());
    assert!(jwt(client.validate_id_token(&signed(Some("k1"), &no_sub), Ok(key_set("k1")), now())));
    let mut forged = good.clone();
    forged.pop();
    forged.push(if good.ends_with('A') { 'E' } else { 'A' });
    assert!(jwt(client.validate_id_token(&forged, Ok(key_set("k1")), now())));
    let no_token = client.validate_id_token("no token", Ok(key_set("k1")), now());
    assert!(no_token.unwrap_err().message().starts_with("JWT validation failed: "));

    let err = client.validate_id_token(&good, Ok(key_set("k2")), now()).unwrap_err();
    assert_eq!(err.message(), "failed to decode ID token: no JWK with kid \"k1\"");
    let unnamed = signed(None, &claims("a", "http://idp", aud, in_an_hour()));
    let err = client.validate_id_token(&unnamed, Ok(r#"{"keys":[]}"#.into()), now()).unwrap_err();
    assert_eq!(err.message(), "failed to decode ID token: JWKS is empty");
    let err = client.validate_id_token(&good, Ok("nonsense".into()), now()).unwrap_err();
    assert!(err.message().starts_with("HTTP request failed: json: "));
    let err = client.validate_id_token(&good, Err(OidcError::Http("down".into())), now()).unwrap_err();
    assert_eq!(err.message(), "HTTP request failed: down");
    // A claim that has to be there and is not.
    let no_aud = format!(r#"{{"sub":"a","iss":"http://idp","exp":{}}}"#, in_an_hour());
    let res = client.validate_id_token(&signed(Some("k1"), &no_aud), Ok(key_set("k1")), now());
    assert_eq!(
        res.unwrap_err().message(),
        "JWT validation failed: JSON error: missing or invalid claim: aud"
    );
    // The time that is handed in counts, too.
    let exp = in_an_hour();
    let soon = signed(Some("k1"), &claims("a", "http://idp", aud, exp));
    assert!(client.validate_id_token(&soon, Ok(key_set("k1")), exp + 60).is_ok());
    assert!(jwt(client.validate_id_token(&soon, Ok(key_set("k1")), exp + 61)));
    // An audience has to hold the client.
    for aud in [r#"[]"#, r#"["x"]"#, "7", r#"["test-client-id",7]"#, "{}"] {
        let jwt_of = signed(Some("k1"), &claims("a", "http://idp", aud, in_an_hour()));
        assert!(jwt(client.validate_id_token(&jwt_of, Ok(key_set("k1")), now())), "{aud}");
    }
}

#[test]
fn validate_id_token_refuses_a_short_eddsa_key() {
    let header = BASE64_URL_SAFE_NO_PAD.encode(r#"{"alg":"EdDSA","typ":"JWT"}"#);
    let payload = BASE64_URL_SAFE_NO_PAD.encode(claims("a", "http://idp", "[]", in_an_hour()));
    let jwt = format!("{header}.{payload}.AAAA");
    let keys = r#"{"keys":[{"kty":"OKP","crv":"Ed25519","x":"AAAA"}]}"#;
    let err = client("http://idp").validate_id_token(&jwt, Ok(keys.into()), now()).unwrap_err();
    assert_eq!(err.message(), "failed to decode ID token: EdDSA key is too short");
}

#[test]
fn a_token_has_to_prove_the_user() {
    let client = client("http://idp");
    let json = claims("user-1", "http://idp", r#"["x","test-client-id"]"#, in_an_hour());
    let mut token = token();
    let verify = |token: &TokenResponse, key: &str, name: &str, id: Option<&str>| {
        verify_token(&client, token, Ok(key_set(key)), now(), name, &id.map(String::from))
    };
    let err = verify(&token, "k1", "user-1", None).unwrap_err();
    assert_eq!(err.message(), "ID token missing from response");
    token.id_token = Some(signed(Some("k1"), &json));
    assert!(verify(&token, "k1", "user-1", None).is_ok());
    assert!(verify(&token, "k1", "alice", Some("user-1")).is_ok());
    let err = verify(&token, "k1", "alice", Some("user-2")).unwrap_err();
    assert_eq!(
        err.message(),
        "ID token subject \"user-1\" does not match user \"alice\""
    );
    assert!(verify(&token, "k2", "user-1", Some("user-1")).is_err());
    // The preferred user name proves the user, too.
    let named = json.replacen('{', r#"{"preferred_username":"alice","#, 1);
    token.id_token = Some(signed(Some("k1"), &named));
    assert!(verify(&token, "k1", "alice", None).is_ok());
    assert!(verify(&token, "k1", "bob", None).is_err());
    let odd = json.replacen('{', r#"{"preferred_username":["alice"],"#, 1);
    token.id_token = Some(signed(Some("k1"), &odd));
    assert!(verify(&token, "k1", "alice", None).is_err());
}

#[test]
fn authentication_codes() {
    assert_eq!(authenticate_code(&Ok(())), PAM_SUCCESS);
    assert_eq!(authenticate_code(&Err(AuthFailure::NoUser)), PAM_AUTH_ERR);
    assert_eq!(authenticate_code(&Err(AuthFailure::NoConfig)), PAM_AUTHINFO_UNAVAIL);
    assert_eq!(authenticate_code(&Err(AuthFailure::NoDiscovery)), PAM_AUTHINFO_UNAVAIL);
    let failed = Err(AuthFailure::Oidc(OidcError::ExpiredToken));
    assert_eq!(authenticate_code(&failed), PAM_AUTH_ERR);
    assert_eq!(account_code(&Ok(true)), PAM_SUCCESS);
    assert_eq!(account_code(&Ok(false)), PAM_PERM_DENIED);
    assert_eq!(account_code(&Err(AccountFailure::NoUser)), PAM_AUTH_ERR);
    assert_eq!(account_code(&Err(AccountFailure::NoService)), PAM_AUTHINFO_UNAVAIL);
    let failed = Err(AccountFailure::Lookup(ServiceError::RangeExhausted));
    assert_eq!(account_code(&failed), PAM_AUTHINFO_UNAVAIL);
}

#[test]
fn pam_users_and_messages() {
    assert_eq!(pam_user(PAM_SUCCESS, Some("alice".into())), Ok("alice".into()));
    assert_eq!(pam_user(7, Some("alice".into())), Err(7));
    assert_eq!(pam_user(PAM_SUCCESS, None), Err(PAM_SUCCESS));
    assert_eq!(
        sign_in_message("ABCD-1234", "https://idp/device"),
        "To sign in, visit: https://idp/device\nEnter code: ABCD-1234\n\
         Waiting for authentication..."
    );
    assert_eq!(
        change_password_message("https://idp"),
        "Password changes are not supported via PAM for OIDC accounts.\n\
         Please change your password at your identity provider:\n  https://idp"
    );
}

#[test]
fn errors_say_what_happened() {
    assert_eq!(OidcError::Io("eof".into()).message(), "I/O error: eof");
    assert_eq!(
        OidcError::AuthorizationPending.message(),
        "authorization pending — user has not yet completed browser auth"
    );
    assert_eq!(OidcError::SlowDown.message(), "polling too fast — increase interval");
}

#[test]
fn only_the_user_whom_the_token_proves_gets_in() {
    let client = client("http://idp");
    let user = |external_id: &str| {
        Ok(Some(User {
            external_id: external_id.into(),
            name: "alice".into(),
            uid: 1,
            gid: 1,
            gecos: String::new(),
            home: "/".into(),
            shell: "/bin/sh".into(),
            active: true,
        }))
    };
    let granted = || {
        let json = claims("user-1", "http://idp", r#""test-client-id""#, in_an_hour());
        let mut token = token();
        token.id_token = Some(signed(Some("k1"), &json));
        Ok(token)
    };
    let keys = || Ok(key_set("k1"));
    let conclude = |flow, user| {
        conclude_authentication(&client, flow, "alice", user, keys(), now())
    };
    assert!(conclude(granted(), user("user-1")).is_ok());
    let mismatch = |res: Result<(), AuthFailure>| {
        matches!(res, Err(AuthFailure::Oidc(OidcError::SubjectMismatch { .. })))
    };
    assert!(mismatch(conclude(granted(), user("user-2"))));
    assert!(mismatch(conclude(granted(), Ok(None))));
    assert!(mismatch(conclude(granted(), Err(ServiceError::RangeExhausted))));
    let expired = conclude(Err(OidcError::ExpiredToken), user("user-1"));
    assert!(matches!(expired, Err(AuthFailure::Oidc(OidcError::ExpiredToken))));
    let bare = conclude(Ok(token()), user("user-1"));
    assert!(matches!(bare, Err(AuthFailure::Oidc(OidcError::MissingIdToken))));
}

#[test]
fn verified_claims_are_read_or_refused() {
    let json = r#"{"sub":"u","iss":"http://idp","aud":["a","b"],"exp":7,"iat":null}"#;
    let claims = verified_claims(Ok(json.into()), "b", 67).unwrap();
    assert_eq!(claims.sub, "u");
    assert_eq!(claims.iss, "http://idp");
    assert_eq!(claims.aud, r#"["a","b"]"#);
    assert_eq!(claims.exp, 7);
    assert_eq!(claims.iat, None);
    assert_eq!(claims.preferred_username, None);
    let late = verified_claims(Ok(json.into()), "b", 68).unwrap_err();
    assert_eq!(late.message(), "JWT validation failed: ExpiredSignature");
    for json in [
        "[]",
        r#"{"iss":"i","aud":"a","exp":7}"#,
        r#"{"sub":1,"iss":"i","aud":"a","exp":7}"#,
        r#"{"sub":"u","aud":"a","exp":7}"#,
        r#"{"sub":"u","iss":"i","exp":7}"#,
        r#"{"sub":"u","iss":"i","aud":"a","exp":-7}"#,
        r#"{"sub":"u","iss":"i","aud":"a","exp":7,"iat":"x"}"#,
        r#"{"sub":"u","iss":"i","aud":"b","exp":7}"#,
        r#"{"sub":"u","iss":"i","aud":["b"],"exp":7}"#,
    ] {
        let refused = verified_claims(Ok(json.into()), "a", 0);
        assert!(matches!(refused, Err(OidcError::JwtValidation(_))), "{json}");
    }
    let expired = Err(ErrorKind::ExpiredSignature.into());
    let expired = verified_claims(expired, "a", 0).unwrap_err();
    assert!(matches!(expired, OidcError::JwtValidation(_)));
    assert_eq!(expired.message(), "JWT validation failed: ExpiredSignature");
}
