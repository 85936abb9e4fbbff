//! The OIDC client: discovery, the device authorization grant (RFC 8628) and the
//! validation of ID tokens.
use crate::json::{
    json_error_text, json_object, json_object_of, json_string, json_string_of, json_strings,
    json_strings_of, json_u64, json_u64_of, member, member_of, members_view, read_record,
    record_of, text_view, Members,
};
use crate::jwt::{
    base64_error_text, base64url, base64url_of, claim_error, expired_error, jwks, jwks_of,
    jwt_accepted, jwt_error_text, jwt_header, jwt_header_of, keys_view, short_octets, signed_claims_of, verify_jwt, KeyInfo, KeyInfoView,
};
use crate::model::texts;
use crate::text::{
    chars_of, join2, join3, same_text, string_of, trim_trailing_slashes, without_trailing_slashes,
};
use vstd::prelude::*;
use vstd::utf8::encode_utf8;

verus! {

/// Why authentication through OIDC failed.
#[derive(Debug)]
pub enum OidcError {
    /// A request failed; the field holds the HTTP client's message.
    Http(String),
    /// A reply could not be read; the field holds the message.
    Io(String),
    /// The discovery document lacks a field.
    MissingField(String),
    /// The discovery document is of another issuer than the one configured.
    IssuerMismatch { expected: String, found: String },
    /// A discovered endpoint is not an HTTPS URL.
    InsecureEndpoint(String),
    /// The user has not yet completed the authentication in the browser.
    AuthorizationPending,
    /// The server asks for a longer polling interval.
    SlowDown,
    /// The device code has expired.
    ExpiredToken,
    /// The server refused for another reason.
    TokenError(String),
    /// The token response holds no ID token.
    MissingIdToken,
    /// The ID token is somebody else's.
    SubjectMismatch { token_sub: String, expected: String },
    /// The ID token cannot be read.
    IdTokenDecode(String),
    /// The ID token is not valid.
    JwtValidation(jsonwebtoken::errors::Error),
}

impl OidcError {
    /// Whether `message` is the text of the message. What `jsonwebtoken` says of an
    /// error is its own wording.
    pub open spec fn has_message(self, message: Seq<char>) -> bool {
        match self {
            OidcError::Http(reason) => message == "HTTP request failed: "@ + reason@,
            OidcError::Io(reason) => message == "I/O error: "@ + reason@,
            OidcError::MissingField(field) => message
                == "discovery document missing required field: "@ + field@,
            OidcError::IssuerMismatch { expected, found } => message == "discovery issuer \""@
                + found@ + "\" does not match configured issuer \""@ + expected@ + "\""@,
            OidcError::InsecureEndpoint(url) => message == "endpoint is not HTTPS: "@ + url@,
            OidcError::AuthorizationPending => message
                == "authorization pending — user has not yet completed browser auth"@,
            OidcError::SlowDown => message == "polling too fast — increase interval"@,
            OidcError::ExpiredToken => message == "device code has expired"@,
            OidcError::TokenError(reason) => message == "token request denied: "@ + reason@,
            OidcError::MissingIdToken => message == "ID token missing from response"@,
            OidcError::SubjectMismatch { token_sub, expected } => message
                == "ID token subject \""@ + token_sub@ + "\" does not match user \""@ + expected@
                + "\""@,
            OidcError::IdTokenDecode(reason) => message == "failed to decode ID token: "@ + reason@,
            OidcError::JwtValidation(_) => "JWT validation failed: "@.is_prefix_of(message),
        }
    }

    /// The message for the log.
    pub fn message(&self) -> (message: String)
        ensures
            self.has_message(message@),
    {
        match self {
            OidcError::Http(reason) => join2("HTTP request failed: ", reason),
            OidcError::Io(reason) => join2("I/O error: ", reason),
            OidcError::MissingField(field) => join2("discovery document missing required field: ", field),
            OidcError::IssuerMismatch { expected, found } => {
                let mut m = join3(
                    "discovery issuer \"",
                    found,
                    "\" does not match configured issuer \"",
                );
                m.append(expected);
                m.append("\"");
                m
            },
            OidcError::InsecureEndpoint(url) => join2("endpoint is not HTTPS: ", url),
            OidcError::AuthorizationPending => {
                "authorization pending — user has not yet completed browser auth".to_owned()
            },
            OidcError::SlowDown => "polling too fast — increase interval".to_owned(),
            OidcError::ExpiredToken => "device code has expired".to_owned(),
            OidcError::TokenError(reason) => join2("token request denied: ", reason),
            OidcError::MissingIdToken => "ID token missing from response".to_owned(),
            OidcError::SubjectMismatch { token_sub, expected } => {
                let mut m = join3("ID token subject \"", token_sub, "\" does not match user \"");
                m.append(expected);
                m.append("\"");
                m
            },
            OidcError::IdTokenDecode(reason) => join2("failed to decode ID token: ", reason),
            OidcError::JwtValidation(err) => {
                let reason = jwt_error_text(err);
                join2("JWT validation failed: ", reason.as_str())
            },
        }
    }
}

/// Endpoints parsed from the OIDC discovery document.
#[derive(Debug, Clone)]
pub struct OidcEndpoints {
    pub device_authorization_endpoint: String,
    pub token_endpoint: String,
    pub issuer: String,
    pub jwks_uri: String,
}

/// Response from the device authorization endpoint (RFC 8628 §3.2).
#[derive(Debug, Clone)]
pub struct DeviceAuthResponse {
    pub device_code: String,
    pub user_code: String,
    pub verification_uri: String,
    pub verification_uri_complete: Option<String>,
    pub expires_in: u64,
    pub interval: u64,
}

/// The polling interval where the server gives none, in seconds.
pub fn default_interval() -> (interval: u64)
    ensures
        interval == 5,
{
    5
}

/// Successful token response.
#[derive(Debug, Clone)]
pub struct TokenResponse {
    pub access_token: String,
    pub id_token: Option<String>,
    pub token_type: String,
}

/// Raw discovery document (only the fields that are needed).
#[derive(Debug, Clone)]
pub struct DiscoveryDocument {
    pub issuer: Option<String>,
    pub token_endpoint: Option<String>,
    pub device_authorization_endpoint: Option<String>,
    pub jwks_uri: Option<String>,
}

/// A POST request with a form for the HTTP client to send.
#[derive(Debug, Clone)]
pub struct FormRequest {
    pub url: String,
    /// Names and values of the form fields, in order.
    pub form: Vec<(String, String)>,
}

/// What a [`FormRequest`] holds, as mathematical values.
pub struct FormRequestView {
    pub url: Seq<char>,
    pub form: Seq<(Seq<char>, Seq<char>)>,
}

impl View for FormRequest {
    type V = FormRequestView;

    open spec fn view(&self) -> FormRequestView {
        FormRequestView { url: self.url@, form: members_view(self.form@) }
    }
}

/// OIDC client for device authorization grant (RFC 8628).
pub struct OidcClient {
    endpoints: OidcEndpoints,
    client_id: String,
    client_secret: Option<String>,
}

/// Where the discovery document of an issuer is found.
pub fn discovery_url(issuer_url: &str) -> (url: String)
    ensures
        url@ == without_trailing_slashes(issuer_url@) + "/.well-known/openid-configuration"@,
{
    let mut url = trim_trailing_slashes(issuer_url);
    url.append("/.well-known/openid-configuration");
    url
}

/// Whether `url` is an HTTPS URL.
pub open spec fn is_https(url: Seq<char>) -> bool {
    "https://"@.is_prefix_of(url)
}

fn starts_with_https(url: &str) -> (res: bool)
    ensures
        res == is_https(url@),
{
    let chars = chars_of(url);
    let scheme = chars_of("https://");
    if chars.len() < scheme.len() {
        return false;
    }
    for i in 0..scheme.len()
        invariant
            chars@ == url@,
            scheme@ == "https://"@,
            scheme@.len() <= chars@.len(),
            forall|j: int| 0 <= j < i ==> chars@[j] == scheme@[j],
    {
        if chars[i] != scheme[i] {
            assert(url@.subrange(0, scheme@.len() as int)[i as int] != "https://"@[i as int]);
            return false;
        }
    }
    assert("https://"@ =~= url@.subrange(0, scheme@.len() as int));
    true
}

fn missing(field: &str) -> (err: OidcError)
    ensures
        err matches OidcError::MissingField(f) && f@ == field@,
{
    OidcError::MissingField(field.to_owned())
}

impl OidcEndpoints {
    /// Whether the issuer is the one at `issuer_url`, trailing slashes aside.
    pub open spec fn issued_by(self, issuer_url: Seq<char>) -> bool {
        without_trailing_slashes(self.issuer@) == without_trailing_slashes(issuer_url)
    }

    /// Whether all endpoints are HTTPS URLs.
    pub open spec fn secure(self) -> bool {
        &&& is_https(self.token_endpoint@)
        &&& is_https(self.device_authorization_endpoint@)
        &&& is_https(self.jwks_uri@)
    }

    /// Why the endpoints are refused: another issuer, or the first endpoint that is
    /// not an HTTPS URL.
    pub open spec fn refused(self, issuer_url: Seq<char>, allow_insecure: bool, e: OidcError) -> bool {
        if !self.issued_by(issuer_url) {
            e matches OidcError::IssuerMismatch { expected, found } && expected@ == issuer_url
                && found@ == self.issuer@
        } else {
            &&& !allow_insecure
            &&& !self.secure()
            &&& e matches OidcError::InsecureEndpoint(url) && url@ == if !is_https(
                self.token_endpoint@,
            ) {
                self.token_endpoint@
            } else if !is_https(self.device_authorization_endpoint@) {
                self.device_authorization_endpoint@
            } else {
                self.jwks_uri@
            }
        }
    }

    fn check(&self, issuer_url: &str, allow_insecure: bool) -> (res: Result<(), OidcError>)
        ensures
            match res {
                Ok(_) => self.issued_by(issuer_url@) && (allow_insecure || self.secure()),
                Err(e) => self.refused(issuer_url@, allow_insecure, e),
            },
    {
        let found = trim_trailing_slashes(self.issuer.as_str());
        let expected = trim_trailing_slashes(issuer_url);
        if !same_text(found.as_str(), expected.as_str()) {
            return Err(
                OidcError::IssuerMismatch {
                    expected: issuer_url.to_owned(),
                    found: self.issuer.clone(),
                },
            );
        }
        if allow_insecure {
            return Ok(());
        }
        if !starts_with_https(self.token_endpoint.as_str()) {
            return Err(OidcError::InsecureEndpoint(self.token_endpoint.clone()));
        }
        if !starts_with_https(self.device_authorization_endpoint.as_str()) {
            return Err(OidcError::InsecureEndpoint(self.device_authorization_endpoint.clone()));
        }
        if !starts_with_https(self.jwks_uri.as_str()) {
            return Err(OidcError::InsecureEndpoint(self.jwks_uri.clone()));
        }
        Ok(())
    }
}

/// Why no client comes of a discovery document: the first field that is missing, or
/// what is wrong with its endpoints.
pub open spec fn document_refused(
    document: DiscoveryDocument,
    issuer_url: Seq<char>,
    allow_insecure: bool,
    e: OidcError,
) -> bool {
    match (
        document.issuer,
        document.token_endpoint,
        document.device_authorization_endpoint,
        document.jwks_uri,
    ) {
        (
            Some(issuer),
            Some(token_endpoint),
            Some(device_authorization_endpoint),
            Some(jwks_uri),
        ) => (OidcEndpoints {
            device_authorization_endpoint,
            token_endpoint,
            issuer,
            jwks_uri,
        }).refused(issuer_url, allow_insecure, e),
        _ => e matches OidcError::MissingField(field) && field@ == if document.issuer is None {
            "issuer"@
        } else if document.token_endpoint is None {
            "token_endpoint"@
        } else if document.device_authorization_endpoint is None {
            "device_authorization_endpoint"@
        } else {
            "jwks_uri"@
        },
    }
}

impl OidcClient {
    /// The discovered endpoints.
    pub closed spec fn discovered(&self) -> OidcEndpoints {
        self.endpoints
    }

    /// The OAuth2 client ID.
    pub closed spec fn id(&self) -> Seq<char> {
        self.client_id@
    }

    /// The OAuth2 client secret, if there is one.
    pub closed spec fn secret(&self) -> Option<Seq<char>> {
        text_view(self.client_secret)
    }

    /// Creates an OIDC client from the document found at the [`discovery_url`] of
    /// `issuer_url` (OIDC Discovery §4.3). The first field that is missing is reported.
    /// The issuer has to be `issuer_url`, trailing slashes aside, and all endpoints have
    /// to be HTTPS URLs, unless `allow_insecure` says otherwise.
    pub fn discover(
        document: DiscoveryDocument,
        issuer_url: &str,
        client_id: &str,
        client_secret: Option<&str>,
        allow_insecure: bool,
    ) -> (res: Result<OidcClient, OidcError>)
        ensures
            match res {
                Ok(client) => {
                    &&& document.issuer == Some(client.discovered().issuer)
                    &&& document.token_endpoint == Some(client.discovered().token_endpoint)
                    &&& document.device_authorization_endpoint == Some(
                        client.discovered().device_authorization_endpoint,
                    )
                    &&& document.jwks_uri == Some(client.discovered().jwks_uri)
                    &&& client.discovered().issued_by(issuer_url@)
                    &&& allow_insecure || client.discovered().secure()
                    &&& client.id() == client_id@
                    &&& client.secret() == (match client_secret {
                        Some(secret) => Some(secret@),
                        None => None,
                    })
                },
                Err(e) => document_refused(document, issuer_url@, allow_insecure, e),
            },
            res is Ok <==> {
                &&& document.issuer is Some
                &&& document.token_endpoint is Some
                &&& document.device_authorization_endpoint is Some
                &&& document.jwks_uri is Some
                &&& without_trailing_slashes(document.issuer->0@) == without_trailing_slashes(
                    issuer_url@,
                )
                &&& allow_insecure || {
                    &&& "https://"@.is_prefix_of(document.token_endpoint->0@)
                    &&& "https://"@.is_prefix_of(document.device_authorization_endpoint->0@)
                    &&& "https://"@.is_prefix_of(document.jwks_uri->0@)
                }
            },
    {
        let issuer = match document.issuer {
            Some(issuer) => issuer,
            None => return Err(missing("issuer")),
        };
        let token_endpoint = match document.token_endpoint {
            Some(url) => url,
            None => return Err(missing("token_endpoint")),
        };
        let device_authorization_endpoint = match document.device_authorization_endpoint {
            Some(url) => url,
            None => return Err(missing("device_authorization_endpoint")),
        };
        let jwks_uri = match document.jwks_uri {
            Some(url) => url,
            None => return Err(missing("jwks_uri")),
        };
        let endpoints = OidcEndpoints {
            device_authorization_endpoint,
            token_endpoint,
            issuer,
            jwks_uri,
        };
        match endpoints.check(issuer_url, allow_insecure) {
            Ok(_) => {},
            Err(e) => return Err(e),
        }
        let client_secret: Option<String> = match client_secret {
            Some(secret) => Some(secret.to_owned()),
            None => None,
        };
        Ok(OidcClient { endpoints, client_id: client_id.to_owned(), client_secret })
    }

    /// Get the discovered endpoints.
    pub fn endpoints(&self) -> (endpoints: &OidcEndpoints)
        ensures
            *endpoints == self.discovered(),
    {
        &self.endpoints
    }

    /// The fields of a form, with the client secret behind them if there is one.
    pub open spec fn with_secret(&self, fields: Seq<(Seq<char>, Seq<char>)>) -> Seq<
        (Seq<char>, Seq<char>),
    > {
        match self.secret() {
            Some(secret) => fields.push(("client_secret"@, secret)),
            None => fields,
        }
    }

    fn add_secret(&self, form: &mut Vec<(String, String)>)
        ensures
            members_view(final(form)@) == self.with_secret(members_view(old(form)@)),
            final(form)@.len() == old(form)@.len() + if self.secret() is Some {
                1int
            } else {
                0int
            },
            old(form)@.is_prefix_of(final(form)@),
            self.secret() is Some ==> final(form)@.last().0@ == "client_secret"@
                && final(form)@.last().1@ == self.secret()->0,
    {
        match &self.client_secret {
            Some(secret) => {
                form.push(("client_secret".to_owned(), secret.clone()));
                assert(members_view(form@) =~= members_view(old(form)@).push(
                    ("client_secret"@, secret@),
                ));
            },
            None => {},
        }
    }

    /// Step 1: Request a device code from the device authorization endpoint: the
    /// request to send, with client_id + scope.
    pub fn request_device_code(&self, scope: &str) -> (request: FormRequest)
        ensures
            request@ == (FormRequestView {
                url: self.discovered().device_authorization_endpoint@,
                form: self.with_secret(seq![("client_id"@, self.id()), ("scope"@, scope@)]),
            }),
            request.url@ == self.discovered().device_authorization_endpoint@,
            request.form@.len() == if self.secret() is Some {
                3int
            } else {
                2int
            },
            request.form@[0].0@ == "client_id"@ && request.form@[0].1@ == self.id(),
            request.form@[1].0@ == "scope"@ && request.form@[1].1@ == scope@,
            self.secret() is Some ==> request.form@[2].0@ == "client_secret"@
                && request.form@[2].1@ == self.secret()->0,
    {
        let mut form: Vec<(String, String)> = Vec::new();
        form.push(("client_id".to_owned(), self.client_id.clone()));
        form.push(("scope".to_owned(), scope.to_owned()));
        assert(members_view(form@) =~= seq![("client_id"@, self.id()), ("scope"@, scope@)]);
        self.add_secret(&mut form);
        FormRequest { url: self.endpoints.device_authorization_endpoint.clone(), form }
    }

    /// Step 2: Poll for token until user completes browser auth: the request to
    /// send. Its reply is read by [`poll_accepted`] and [`poll_refused`].
    pub fn poll_for_token(&self, device_code: &str) -> (request: FormRequest)
        ensures
            request@ == (FormRequestView {
                url: self.discovered().token_endpoint@,
                form: self.with_secret(
                    seq![
                        ("client_id"@, self.id()),
                        ("grant_type"@, "urn:ietf:params:oauth:grant-type:device_code"@),
                        ("device_code"@, device_code@),
                    ],
                ),
            }),
            request.url@ == self.discovered().token_endpoint@,
            request.form@.len() == if self.secret() is Some {
                4int
            } else {
                3int
            },
            request.form@[0].0@ == "client_id"@ && request.form@[0].1@ == self.id(),
            request.form@[1].0@ == "grant_type"@ && request.form@[1].1@
                == "urn:ietf:params:oauth:grant-type:device_code"@,
            request.form@[2].0@ == "device_code"@ && request.form@[2].1@ == device_code@,
            self.secret() is Some ==> request.form@[3].0@ == "client_secret"@
                && request.form@[3].1@ == self.secret()->0,
    {
        let mut form: Vec<(String, String)> = Vec::new();
        form.push(("client_id".to_owned(), self.client_id.clone()));
        form.push(
            (
                "grant_type".to_owned(),
                "urn:ietf:params:oauth:grant-type:device_code".to_owned(),
            ),
        );
        form.push(("device_code".to_owned(), device_code.to_owned()));
        assert(members_view(form@) =~= seq![
            ("client_id"@, self.id()),
            ("grant_type"@, "urn:ietf:params:oauth:grant-type:device_code"@),
            ("device_code"@, device_code@),
        ]);
        self.add_secret(&mut form);
        FormRequest { url: self.endpoints.token_endpoint.clone(), form }
    }
}

/// Whether the server accepted a poll: then the body of the reply holds the tokens.
pub fn poll_accepted(status: u16) -> (accepted: bool)
    ensures
        accepted == (200 <= status < 300),
{
    200 <= status && status < 300
}

/// Whether `err` reports a refusal for `error`, the reason that the body names, or
/// with the whole `body` where it names none.
pub open spec fn reports_refusal(error: Option<Seq<char>>, body: Seq<char>, err: OidcError) -> bool {
    match error {
        Some(reason) => if reason == "authorization_pending"@ {
            err is AuthorizationPending
        } else if reason == "slow_down"@ {
            err is SlowDown
        } else if reason == "expired_token"@ {
            err is ExpiredToken
        } else {
            err matches OidcError::TokenError(e) && e@ == reason
        },
        None => err matches OidcError::TokenError(e) && e@ == body,
    }
}

/// The error for a poll that was refused for the reason `error`, if the body names
/// one.
pub fn refusal(error: Option<String>, body: &str) -> (err: OidcError)
    ensures
        reports_refusal(text_view(error), body@, err),
        error is Some && error->0@ == "authorization_pending"@ ==> err is AuthorizationPending,
        error is Some && error->0@ == "slow_down"@ ==> err is SlowDown,
        error is Some && error->0@ == "expired_token"@ ==> err is ExpiredToken,
        error is None ==> err is TokenError && err->TokenError_0@ == body@,
        err is AuthorizationPending ==> error is Some && error->0@ == "authorization_pending"@,
        err is SlowDown ==> error is Some && error->0@ == "slow_down"@,
        err is ExpiredToken ==> error is Some && error->0@ == "expired_token"@,
        err is TokenError && error is Some ==> err->TokenError_0@ == error->0@,
        err is AuthorizationPending || err is SlowDown || err is ExpiredToken || err is TokenError,
{
    proof {
        reveal_strlit("authorization_pending");
        reveal_strlit("slow_down");
        reveal_strlit("expired_token");
        assert("authorization_pending"@.len() > "expired_token"@.len() > "slow_down"@.len());
    }
    match error {
        Some(reason) => {
            if same_text(reason.as_str(), "authorization_pending") {
                OidcError::AuthorizationPending
            } else if same_text(reason.as_str(), "slow_down") {
                OidcError::SlowDown
            } else if same_text(reason.as_str(), "expired_token") {
                OidcError::ExpiredToken
            } else {
                OidcError::TokenError(reason)
            }
        },
        None => OidcError::TokenError(body.to_owned()),
    }
}

/// The string that is the one field `name` of the record that `bytes` are the JSON of,
/// if there is one.
pub open spec fn string_field_of(bytes: Seq<u8>, name: Seq<char>) -> Option<Seq<char>> {
    match record_of(bytes, name) {
        Some(Some(json)) => json_string_of(json),
        _ => None,
    }
}

/// The error for a poll that was refused with this body (RFC 8628 §3.5): it is a
/// JSON record whose field `error` tells the reason.
pub fn poll_refused(body: &str) -> (err: OidcError)
    ensures
        reports_refusal(string_field_of(encode_utf8(body@), "error"@), body@, err),
{
    let error: Option<String> = match read_record(body.as_bytes(), "error") {
        Ok(Some(json)) => match json_string(json.as_str()) {
            Ok(reason) => Some(reason),
            Err(_) => None,
        },
        _ => None,
    };
    refusal(error, body)
}

/// The shortest polling interval, and what `slow_down` adds to it, in seconds.
pub const MIN_INTERVAL: u64 = 5;

/// How a device authorization goes on.
#[derive(Debug)]
pub enum FlowStep {
    /// Sleep for the interval, then ask again.
    Wait,
    /// It is over.
    Done(Result<TokenResponse, OidcError>),
}

/// A device authorization while the user completes it in the browser.
///
/// Over and over: sleep for [`DeviceFlow::interval`], ask [`DeviceFlow::wake`]
/// whether there is still time, poll, and hand the reply to [`DeviceFlow::next`].
pub struct DeviceFlow {
    interval: u64,
    expires_in: u64,
}

/// What a [`DeviceFlow`] goes by, in seconds.
pub struct DeviceFlowView {
    pub interval: u64,
    pub expires_in: u64,
}

impl DeviceFlowView {
    /// After the server asked to slow down: the interval is longer from then on.
    pub open spec fn slowed_down(self) -> DeviceFlowView {
        DeviceFlowView {
            interval: if self.interval + MIN_INTERVAL > u64::MAX {
                u64::MAX
            } else {
                (self.interval + MIN_INTERVAL) as u64
            },
            ..self
        }
    }
}

impl View for DeviceFlow {
    type V = DeviceFlowView;

    closed spec fn view(&self) -> DeviceFlowView {
        DeviceFlowView { interval: self.interval, expires_in: self.expires_in }
    }
}

impl DeviceFlow {
    /// How long to sleep before the next poll, in seconds.
    pub fn interval(&self) -> (seconds: u64)
        ensures
            seconds == self@.interval,
    {
        self.interval
    }

    /// Whether there is still time, when so many seconds have passed since the
    /// device code was issued.
    pub fn wake(&self, elapsed: u64) -> (res: Result<(), OidcError>)
        ensures
            if elapsed >= self@.expires_in {
                res matches Err(e) && e is ExpiredToken
            } else {
                res is Ok
            },
    {
        if elapsed >= self.expires_in {
            Err(OidcError::ExpiredToken)
        } else {
            Ok(())
        }
    }

    /// Takes the reply to a poll. While the authorization is pending the flow goes
    /// on, at a longer interval if the server asked for that; anything else ends it.
    pub fn next(&mut self, reply: Result<TokenResponse, OidcError>) -> (step: FlowStep)
        ensures
            match reply {
                Err(OidcError::AuthorizationPending) => step is Wait && final(self)@ == old(self)@,
                Err(OidcError::SlowDown) => step is Wait && final(self)@ == old(
                    self,
                )@.slowed_down(),
                _ => step == FlowStep::Done(reply) && final(self)@ == old(self)@,
            },
            final(self)@.expires_in == old(self)@.expires_in,
            reply is Err && reply->Err_0 is SlowDown ==> final(self)@.interval == if old(
                self,
            )@.interval + 5 <= u64::MAX {
                old(self)@.interval + 5
            } else {
                u64::MAX as int
            },
    {
        match reply {
            Err(OidcError::AuthorizationPending) => FlowStep::Wait,
            Err(OidcError::SlowDown) => {
                self.interval = if self.interval > u64::MAX - MIN_INTERVAL {
                    u64::MAX
                } else {
                    self.interval + MIN_INTERVAL
                };
                FlowStep::Wait
            },
            reply => FlowStep::Done(reply),
        }
    }
}

impl OidcClient {
    /// Begins to wait for the user, after the device code was requested and shown.
    /// The server's interval counts, but never less than the shortest one.
    pub fn authenticate_device_flow(&self, response: &DeviceAuthResponse) -> (flow: DeviceFlow)
        ensures
            flow@.interval == if response.interval < MIN_INTERVAL {
                MIN_INTERVAL
            } else {
                response.interval
            },
            flow@.interval == if response.interval < 5 {
                5
            } else {
                response.interval
            },
            flow@.expires_in == response.expires_in,
    {
        DeviceFlow {
            interval: if response.interval < MIN_INTERVAL {
                MIN_INTERVAL
            } else {
                response.interval
            },
            expires_in: response.expires_in,
        }
    }
}

/// What a flow comes to after replies that let it go on: `true` stands for one
/// that asked to slow down.
pub open spec fn after_replies(flow: DeviceFlowView, slow: Seq<bool>) -> DeviceFlowView
    decreases slow.len(),
{
    if slow.len() == 0 {
        flow
    } else if slow.last() {
        after_replies(flow, slow.drop_last()).slowed_down()
    } else {
        after_replies(flow, slow.drop_last())
    }
}

/// How long a flow sleeps before it reads the replies `slow`, all in all.
pub open spec fn slept(flow: DeviceFlowView, slow: Seq<bool>) -> int
    decreases slow.len(),
{
    if slow.len() == 0 {
        0
    } else {
        slept(flow, slow.drop_last()) + after_replies(flow, slow.drop_last()).interval
    }
}

/// The interval is never below the shortest one and never gets shorter, and the
/// time that the code is good for never changes.
pub proof fn lemma_interval_never_shrinks(flow: DeviceFlowView, slow: Seq<bool>)
    requires
        flow.interval >= MIN_INTERVAL,
    ensures
        MIN_INTERVAL == 5,
        after_replies(flow, slow).interval >= flow.interval,
        after_replies(flow, slow).interval >= MIN_INTERVAL,
        after_replies(flow, slow).expires_in == flow.expires_in,
    decreases slow.len(),
{
    if slow.len() > 0 {
        lemma_interval_never_shrinks(flow, slow.drop_last());
    }
}

/// However the server replies, a flow ends: when it has polled so often that the
/// shortest intervals alone fill the time that the code is good for, there is no
/// time left.
pub proof fn lemma_polls_are_bounded(flow: DeviceFlowView, slow: Seq<bool>)
    requires
        flow.interval >= MIN_INTERVAL,
    ensures
        slept(flow, slow) >= MIN_INTERVAL * slow.len(),
        MIN_INTERVAL * slow.len() >= flow.expires_in ==> slept(flow, slow) >= after_replies(
            flow,
            slow,
        ).expires_in,
    decreases slow.len(),
{
    lemma_interval_never_shrinks(flow, slow);
    if slow.len() > 0 {
        lemma_polls_are_bounded(flow, slow.drop_last());
        lemma_interval_never_shrinks(flow, slow.drop_last());
    }
}

/// Validated ID token claims (OIDC Core §2).
#[derive(Debug, Clone)]
pub struct IdTokenClaims {
    /// Subject identifier — unique ID for the authenticated user.
    pub sub: String,
    /// Issuer URL.
    pub iss: String,
    /// Audience (client_id), as a JSON text.
    pub aud: String,
    /// Expiration time (UTC timestamp).
    pub exp: u64,
    /// Issued-at time (UTC timestamp).
    pub iat: Option<u64>,
    /// The name that the user goes by, if the token gives one.
    pub preferred_username: Option<String>,
}

/// The JSON text of a member that may be left out: none where it is `null`.
pub open spec fn optional_member_of(members: Seq<(Seq<char>, Seq<char>)>, name: Seq<char>) -> Option<
    Seq<char>,
> {
    match member_of(members, name) {
        Some(json) => if json == "null"@ {
            None
        } else {
            Some(json)
        },
        None => None,
    }
}

fn optional_member(members: &Members, name: &str) -> (res: Option<String>)
    ensures
        text_view(res) == optional_member_of(members_view(members@), name@),
{
    match member(members, name) {
        Some(json) => {
            if same_text(json.as_str(), "null") {
                None
            } else {
                Some(json)
            }
        },
        None => None,
    }
}

/// Whether `members` hold the claims of an ID token, each of its kind.
pub open spec fn are_claims(members: Seq<(Seq<char>, Seq<char>)>) -> bool {
    &&& member_of(members, "sub"@) matches Some(json) && json_string_of(json) is Some
    &&& member_of(members, "iss"@) matches Some(json) && json_string_of(json) is Some
    &&& member_of(members, "aud"@) is Some
    &&& member_of(members, "exp"@) matches Some(json) && json_u64_of(json) is Some
    &&& optional_member_of(members, "iat"@) matches Some(json) ==> json_u64_of(json) is Some
}

/// Whether `claims` are those that `members` hold.
pub open spec fn reads_claims(members: Seq<(Seq<char>, Seq<char>)>, claims: IdTokenClaims) -> bool {
    &&& are_claims(members)
    &&& json_string_of(member_of(members, "sub"@)->0) == Some(claims.sub@)
    &&& json_string_of(member_of(members, "iss"@)->0) == Some(claims.iss@)
    &&& member_of(members, "aud"@) == Some(claims.aud@)
    &&& json_u64_of(member_of(members, "exp"@)->0) == Some(claims.exp)
    &&& claims.iat == (match optional_member_of(members, "iat"@) {
        Some(json) => json_u64_of(json),
        None => None,
    })
    &&& text_view(claims.preferred_username) == (match member_of(members, "preferred_username"@) {
        Some(json) => json_string_of(json),
        None => None,
    })
}

fn bad_claim(name: &str) -> (err: OidcError)
    ensures
        err is JwtValidation,
{
    let reason = join2("missing or invalid claim: ", name);
    OidcError::JwtValidation(claim_error(reason.as_str()))
}

fn string_claim(members: &Members, name: &str) -> (res: Result<String, OidcError>)
    ensures
        match res {
            Ok(text) => member_of(members_view(members@), name@) matches Some(json)
                && json_string_of(json) == Some(text@),
            Err(e) => e is JwtValidation && !(member_of(members_view(members@), name@) matches Some(
                json,
            ) && json_string_of(json) is Some),
        },
{
    match member(members, name) {
        Some(json) => match json_string(json.as_str()) {
            Ok(text) => Ok(text),
            Err(_) => Err(bad_claim(name)),
        },
        None => Err(bad_claim(name)),
    }
}

/// Reads the claims of an ID token: subject, issuer, audience and expiration have to
/// be there, the time of issue and the name of the user may be left out.
pub fn read_claims(members: &Members) -> (res: Result<IdTokenClaims, OidcError>)
    ensures
        match res {
            Ok(claims) => reads_claims(members_view(members@), claims),
            Err(e) => e is JwtValidation && !are_claims(members_view(members@)),
        },
{
    let sub = string_claim(members, "sub")?;
    let iss = string_claim(members, "iss")?;
    let aud = match member(members, "aud") {
        Some(json) => json,
        None => return Err(bad_claim("aud")),
    };
    let exp: u64 = match member(members, "exp") {
        Some(json) => match json_u64(json.as_str()) {
            Ok(exp) => exp,
            Err(_) => return Err(bad_claim("exp")),
        },
        None => return Err(bad_claim("exp")),
    };
    let iat: Option<u64> = match optional_member(members, "iat") {
        Some(json) => match json_u64(json.as_str()) {
            Ok(iat) => Some(iat),
            Err(_) => return Err(bad_claim("iat")),
        },
        None => None,
    };
    let preferred_username: Option<String> = match member(members, "preferred_username") {
        Some(json) => match json_string(json.as_str()) {
            Ok(name) => Some(name),
            Err(_) => None,
        },
        None => None,
    };
    Ok(IdTokenClaims { sub, iss, aud, exp, iat, preferred_username })
}

/// Whether the key at `index` is the one to verify a token with: the first with the
/// token's key id, or the first of all where the token gives none.
pub open spec fn is_selected(kid: Option<Seq<char>>, keys: Seq<KeyInfoView>, index: int) -> bool {
    &&& 0 <= index < keys.len()
    &&& match kid {
        Some(id) => keys[index].kid == Some(id) && forall|j: int|
            0 <= j < index ==> (#[trigger] keys[j]).kid != Some(id),
        None => index == 0,
    }
}

/// There is one key to verify a token with at most.
proof fn lemma_one_selected(kid: Option<Seq<char>>, keys: Seq<KeyInfoView>, a: int, b: int)
    requires
        is_selected(kid, keys, a),
        is_selected(kid, keys, b),
    ensures
        a == b,
{
    if let Some(id) = kid {
        assert(keys[a].kid == Some(id));
        assert(keys[b].kid == Some(id));
    }
}

/// Whether there is no key to verify a token with.
pub open spec fn none_selected(kid: Option<Seq<char>>, keys: Seq<KeyInfoView>) -> bool {
    match kid {
        Some(id) => forall|j: int| 0 <= j < keys.len() ==> (#[trigger] keys[j]).kid != Some(id),
        None => keys.len() == 0,
    }
}

/// How a message says that there is no key to verify a token with.
pub open spec fn no_key_text(kid: Option<Seq<char>>) -> Seq<char> {
    match kid {
        Some(id) => "no JWK with kid \""@ + id + "\""@,
        None => "JWKS is empty"@,
    }
}

/// Selects the key to verify a token with: the first with the token's key id, or the
/// first of all where the token gives none.
#[verifier::loop_isolation(false)]
pub fn select_jwk(kid: &Option<String>, keys: &Vec<KeyInfo>) -> (res: Result<usize, OidcError>)
    ensures
        match res {
            Ok(index) => is_selected(text_view(*kid), keys_view(keys@), index as int),
            Err(e) => {
                &&& none_selected(text_view(*kid), keys_view(keys@))
                &&& e matches OidcError::IdTokenDecode(reason) && reason@ == no_key_text(
                    text_view(*kid),
                )
            },
        },
        match *kid {
            Some(id) => {
                &&& res is Ok <==> exists|j: int|
                    0 <= j < keys@.len() && (#[trigger] keys@[j]).kid is Some && keys@[j].kid->0@
                        == id@
                &&& res is Ok ==> {
                    &&& (res->Ok_0) < keys@.len()
                    &&& keys@[res->Ok_0 as int].kid is Some
                    &&& keys@[res->Ok_0 as int].kid->0@ == id@
                    &&& forall|j: int|
                        0 <= j < res->Ok_0 ==> (#[trigger] keys@[j]).kid is None
                            || keys@[j].kid->0@ != id@
                }
                &&& res is Err ==> (res->Err_0 is IdTokenDecode && res->Err_0->IdTokenDecode_0@
                    == "no JWK with kid \""@ + id@ + "\""@)
            },
            None => {
                &&& res is Ok <==> keys@.len() > 0
                &&& res is Ok ==> res->Ok_0 == 0
                &&& res is Err ==> (res->Err_0 is IdTokenDecode && res->Err_0->IdTokenDecode_0@
                    == "JWKS is empty"@)
            },
        },
{
    assert forall|j: int| 0 <= j < keys@.len() implies keys_view(keys@)[j] == (
    #[trigger] keys@[j])@ by {}
    match kid {
        Some(id) => {
            for i in 0..keys.len()
                invariant
                    *kid == Some(*id),
                    forall|j: int|
                        0 <= j < i ==> (#[trigger] keys_view(keys@)[j]).kid != Some(id@),
            {
                match &keys[i].kid {
                    Some(other) => {
                        if same_text(other.as_str(), id.as_str()) {
                            return Ok(i);
                        }
                    },
                    None => {},
                }
            }
            Err(OidcError::IdTokenDecode(join3("no JWK with kid \"", id.as_str(), "\"")))
        },
        None => {
            if keys.len() == 0 {
                Err(OidcError::IdTokenDecode("JWKS is empty".to_owned()))
            } else {
                Ok(0)
            }
        },
    }
}

/// Whether the audience `aud`, a JSON text, holds `client_id`: it is that string, or a
/// list of strings with it.
pub open spec fn audience_holds(aud: Seq<char>, client_id: Seq<char>) -> bool {
    ||| json_string_of(aud) == Some(client_id)
    ||| json_strings_of(aud) matches Some(names) && names.contains(client_id)
}

/// Tests whether the audience `aud`, a JSON text, holds `client_id`.
pub fn holds_audience(aud: &str, client_id: &str) -> (res: bool)
    ensures
        res == audience_holds(aud@, client_id@),
        res <==> json_string_of(aud@) == Some(client_id@) || (json_strings_of(aud@) is Some
            && json_strings_of(aud@)->0.contains(client_id@)),
{
    match json_string(aud) {
        Ok(name) => {
            if same_text(name.as_str(), client_id) {
                return true;
            }
        },
        Err(_) => {},
    }
    match json_strings(aud) {
        Ok(names) => {
            for i in 0..names.len()
                invariant
                    json_string_of(aud@) != Some(client_id@),
                    json_strings_of(aud@) == Some(texts(names@)),
                    forall|j: int| 0 <= j < i ==> #[trigger] texts(names@)[j] != client_id@,
            {
                if same_text(names[i].as_str(), client_id) {
                    assert(texts(names@)[i as int] == client_id@);
                    return true;
                }
            }
            false
        },
        Err(_) => false,
    }
}

/// For how many seconds after its expiration a token is still accepted, because clocks
/// differ.
pub const LEEWAY: u64 = 60;

/// Whether a token that expires at `exp` has expired at `now`.
pub open spec fn expired(exp: u64, now: u64) -> bool {
    exp + LEEWAY < now
}

/// Whether `members` hold the claims of an ID token for this client that has not
/// expired at `now`.
pub open spec fn are_claims_for(
    members: Seq<(Seq<char>, Seq<char>)>,
    client_id: Seq<char>,
    now: u64,
) -> bool {
    &&& are_claims(members)
    &&& member_of(members, "aud"@) matches Some(aud) && audience_holds(aud, client_id)
    &&& member_of(members, "exp"@) matches Some(json) && json_u64_of(json) matches Some(exp)
        && !expired(exp, now)
}

/// Whether `res` are the claims for this client that `json`, the verified claims of a
/// token, holds, or the error where it holds none or they have expired at `now`.
pub open spec fn claims_read(
    json: Seq<char>,
    client_id: Seq<char>,
    now: u64,
    res: Result<IdTokenClaims, OidcError>,
) -> bool {
    match json_object_of(encode_utf8(json)) {
        Some(members) => match res {
            Ok(claims) => reads_claims(members, claims) && are_claims_for(members, client_id, now),
            Err(e) => e is JwtValidation && !are_claims_for(members, client_id, now),
        },
        None => res matches Err(e) && e is JwtValidation,
    }
}

/// The claims of a token whose verification came to `verified`: the JSON text of its
/// claims, or why it is not valid. They have to be for the client `client_id`, and must
/// not have expired at `now`, in seconds of the Unix epoch.
pub fn verified_claims(
    verified: Result<String, jsonwebtoken::errors::Error>,
    client_id: &str,
    now: u64,
) -> (res: Result<IdTokenClaims, OidcError>)
    ensures
        match verified {
            Ok(json) => claims_read(json@, client_id@, now, res),
            Err(failure) => res == Err::<IdTokenClaims, OidcError>(
                OidcError::JwtValidation(failure),
            ),
        },
{
    let json: String = match verified {
        Ok(json) => json,
        Err(e) => return Err(OidcError::JwtValidation(e)),
    };
    let members: Members = match json_object(json.as_str().as_bytes()) {
        Ok(members) => members,
        Err(e) => {
            let reason = json_error_text(&e);
            return Err(OidcError::JwtValidation(claim_error(reason.as_str())));
        },
    };
    let claims = read_claims(&members)?;
    if now > LEEWAY && claims.exp < now - LEEWAY {
        return Err(OidcError::JwtValidation(expired_error()));
    }
    if holds_audience(claims.aud.as_str(), client_id) {
        Ok(claims)
    } else {
        Err(bad_claim("aud"))
    }
}

fn has_short_octets(key: &KeyInfo) -> (res: bool)
    ensures
        res == short_octets(key@),
{
    match &key.octets {
        Some(x) => match base64url(x.as_str()) {
            Ok(bytes) => bytes.len() < 32,
            Err(_) => false,
        },
        None => false,
    }
}

/// Whether a token is to be verified by EdDSA with a key that is too short for it.
pub open spec fn key_too_short(
    kid: Option<Seq<char>>,
    alg: Seq<char>,
    keys: Seq<KeyInfoView>,
) -> bool {
    alg == "EdDSA"@ && exists|index: int|
        is_selected(kid, keys, index) && short_octets(#[trigger] keys[index])
}

/// The claims that an ID token has to hold for its validation, besides its audience.
pub open spec fn required_claims() -> Seq<Seq<char>> {
    seq!["sub"@, "exp"@, "iss"@]
}

impl OidcClient {
    /// What comes of a token for which there is a key, the one at `index` of the key set
    /// `body`, when its validation read `clock`: where issuer, audience, required claims
    /// and expiry were accepted, the claims that were signed with the key are read at
    /// `now`; else it is not valid.
    pub open spec fn decided(
        &self,
        token: Seq<char>,
        body: Seq<char>,
        index: nat,
        alg: Seq<char>,
        clock: u64,
        now: u64,
        res: Result<IdTokenClaims, OidcError>,
    ) -> bool {
        if jwt_accepted(
            token,
            body,
            index,
            alg,
            self.discovered().issuer@,
            self.id(),
            required_claims(),
            true,
            clock,
        ) {
            signed_claims_of(token, body, index, alg) matches Some(json) && claims_read(
                json,
                self.id(),
                now,
                res,
            )
        } else {
            res matches Err(e) && e is JwtValidation
        }
    }

    /// What holds of the claims of a token that was validated with the key set `body`
    /// at `now`: it was accepted with its required claims and its expiry checked, the
    /// claims were signed with the selected key, they are of the discovered issuer,
    /// their audience holds this client, and they have not expired.
    pub open spec fn validated(
        &self,
        token: Seq<char>,
        body: Seq<char>,
        now: u64,
        claims: IdTokenClaims,
    ) -> bool {
        &&& jwt_header_of(token) matches Some((kid, alg)) && jwks_of(body) matches Some(keys)
            && exists|index: nat, clock: u64|
            {
                &&& is_selected(kid, keys, index as int)
                &&& #[trigger] jwt_accepted(
                    token,
                    body,
                    index,
                    alg,
                    self.discovered().issuer@,
                    self.id(),
                    required_claims(),
                    true,
                    clock,
                )
                &&& self.decided(token, body, index, alg, clock, now, Ok(claims))
            }
        &&& claims.iss@ == self.discovered().issuer@
        &&& audience_holds(claims.aud@, self.id())
        &&& !expired(claims.exp, now)
    }

    /// A token that was accepted with the selected key, and whose claims are those that
    /// are wanted, is validated.
    proof fn lemma_validated(
        &self,
        token: Seq<char>,
        body: Seq<char>,
        header: (Option<Seq<char>>, Seq<char>),
        keys: Seq<KeyInfoView>,
        index: nat,
        clock: u64,
        now: u64,
        claims: IdTokenClaims,
    )
        requires
            jwt_header_of(token) == Some(header),
            jwks_of(body) == Some(keys),
            is_selected(header.0, keys, index as int),
            jwt_accepted(
                token,
                body,
                index,
                header.1,
                self.discovered().issuer@,
                self.id(),
                required_claims(),
                true,
                clock,
            ),
            self.decided(token, body, index, header.1, clock, now, Ok(claims)),
            claims.iss@ == self.discovered().issuer@,
            audience_holds(claims.aud@, self.id()),
            !expired(claims.exp, now),
        ensures
            self.validated(token, body, now, claims),
    {
    }

    /// What comes of validating a token at `now`, when fetching the discovered
    /// `jwks_uri` came to `fetched`.
    pub open spec fn token_checked(
        &self,
        token: Seq<char>,
        fetched: Result<String, OidcError>,
        now: u64,
        res: Result<IdTokenClaims, OidcError>,
    ) -> bool {
        match jwt_header_of(token) {
            None => res matches Err(e) && e is JwtValidation,
            Some((kid, alg)) => match fetched {
                Err(failure) => res == Err::<IdTokenClaims, OidcError>(failure),
                Ok(body) => match jwks_of(body@) {
                    None => res matches Err(OidcError::Http(reason)) && "json: "@.is_prefix_of(
                        reason@,
                    ),
                    Some(keys) => if none_selected(kid, keys) {
                        res matches Err(OidcError::IdTokenDecode(reason)) && reason@
                            == no_key_text(kid)
                    } else if key_too_short(kid, alg, keys) {
                        res matches Err(OidcError::IdTokenDecode(reason)) && reason@
                            == "EdDSA key is too short"@
                    } else {
                        &&& exists|index: nat, clock: u64|
                            is_selected(kid, keys, index as int) && #[trigger] self.decided(
                                token,
                                body@,
                                index,
                                alg,
                                clock,
                                now,
                                res,
                            )
                        &&& res matches Ok(claims) ==> self.validated(token, body@, now, claims)
                    },
                },
            },
        }
    }

    /// Validate an ID token's signature, expiry, issuer, and audience using
    /// the IdP's JWKS, then return the validated claims.
    ///
    /// `fetched` is what came of fetching the discovered `jwks_uri`. The key that
    /// matches the token's `kid` header is selected, and the token is validated per
    /// OIDC Core §3.1.3.7. `now` is the time, in seconds of the Unix epoch, at which the
    /// token must not have expired. It must not have expired by the clock of the machine
    /// either, which is read on the way.
    pub fn validate_id_token(
        &self,
        id_token: &str,
        fetched: Result<String, OidcError>,
        now: u64,
    ) -> (res: Result<IdTokenClaims, OidcError>)
        ensures
            self.token_checked(id_token@, fetched, now, res),
    {
        let header = match jwt_header(id_token) {
            Ok(header) => header,
            Err(e) => return Err(OidcError::JwtValidation(e)),
        };
        let body: String = match fetched {
            Ok(body) => body,
            Err(e) => return Err(e),
        };
        let keys: Vec<KeyInfo> = match jwks(body.as_str()) {
            Ok(keys) => keys,
            Err(e) => {
                let reason = json_error_text(&e);
                return Err(OidcError::Http(join2("json: ", reason.as_str())));
            },
        };
        let index: usize = match select_jwk(&header.kid, &keys) {
            Ok(index) => index,
            Err(e) => return Err(e),
        };
        let ghost kid = text_view(header.kid);
        let ghost seen = keys_view(keys@);
        if same_text(header.alg.as_str(), "EdDSA") && has_short_octets(&keys[index]) {
            assert(short_octets(seen[index as int]));
            return Err(OidcError::IdTokenDecode("EdDSA key is too short".to_owned()));
        }
        proof {
            assert forall|other: int| is_selected(kid, seen, other) implies !(header.alg@ == "EdDSA"@
                && short_octets(#[trigger] seen[other])) by {
                lemma_one_selected(kid, seen, index as int, other);
            }
        }
        let mut required: Vec<String> = Vec::new();
        required.push("sub".to_owned());
        required.push("exp".to_owned());
        required.push("iss".to_owned());
        assert(texts(required@) =~= required_claims());
        let verified: Result<String, jsonwebtoken::errors::Error> = verify_jwt(
            id_token,
            body.as_str(),
            index,
            header.alg.as_str(),
            self.endpoints.issuer.as_str(),
            self.client_id.as_str(),
            &required,
            true,
        );
        let ghost outcome = verified;
        let res = verified_claims(verified, self.client_id.as_str(), now);
        proof {
            let clock = choose|clock: u64| #[trigger]
                jwt_accepted(
                    id_token@,
                    body@,
                    index as nat,
                    header.alg@,
                    self.discovered().issuer@,
                    self.id(),
                    required_claims(),
                    true,
                    clock,
                ) == (outcome is Ok);
            assert(self.decided(id_token@, body@, index as nat, header.alg@, clock, now, res));
            if res is Ok {
                let claims = res->Ok_0;
                assert(res == Ok::<IdTokenClaims, OidcError>(claims));
                self.lemma_validated(
                    id_token@,
                    body@,
                    (kid, header.alg@),
                    seen,
                    index as nat,
                    clock,
                    now,
                    claims,
                );
            }
        }
        res
    }
}

/// Where the first `c` stands in `s` at or after `from`, or the end of `s`.
pub open spec fn index_from(s: Seq<char>, c: char, from: int) -> int
    decreases s.len() - from,
{
    if from < 0 || from >= s.len() || s[from] == c {
        from
    } else {
        index_from(s, c, from + 1)
    }
}

fn find_from(chars: &Vec<char>, c: char, from: usize) -> (at: usize)
    requires
        from <= chars@.len(),
    ensures
        at == index_from(chars@, c, from as int),
        from <= at <= chars@.len(),
        at < chars@.len() ==> chars@[at as int] == c,
{
    let mut i: usize = from;
    while i < chars.len() && chars[i] != c
        invariant
            from <= i <= chars@.len(),
            index_from(chars@, c, i as int) == index_from(chars@, c, from as int),
        decreases chars@.len() - i,
    {
        i = i + 1;
    }
    i
}

/// The second of the parts that dots separate in `token`; nothing if it has no dot.
pub open spec fn payload_part(token: Seq<char>) -> Option<Seq<char>> {
    let first = index_from(token, '.', 0);
    if first >= token.len() {
        None
    } else {
        Some(token.subrange(first + 1, index_from(token, '.', first + 1)))
    }
}

/// Finds the payload part of a token.
pub fn find_payload(token: &str) -> (res: Option<String>)
    ensures
        text_view(res) == payload_part(token@),
{
    let chars = chars_of(token);
    let first: usize = find_from(&chars, '.', 0);
    if first >= chars.len() {
        None
    } else {
        let second: usize = find_from(&chars, '.', first + 1);
        Some(string_of(&chars, first + 1, second))
    }
}

/// The subject that the field `sub` gives: a string; an error where it is left out or
/// `null`, or no string.
pub fn subject_of(field: Option<String>) -> (res: Result<String, OidcError>)
    ensures
        reads_subject(text_view(field), res),
{
    match field {
        Some(json) => {
            if same_text(json.as_str(), "null") {
                return Err(OidcError::IdTokenDecode("missing sub claim".to_owned()));
            }
            match json_string(json.as_str()) {
                Ok(sub) => Ok(sub),
                Err(e) => {
                    let reason = json_error_text(&e);
                    Err(OidcError::IdTokenDecode(join2("json: ", reason.as_str())))
                },
            }
        },
        None => Err(OidcError::IdTokenDecode("missing sub claim".to_owned())),
    }
}

/// Whether `res` is what the field `sub`, a JSON text, gives as the subject.
pub open spec fn reads_subject(field: Option<Seq<char>>, res: Result<String, OidcError>) -> bool {
    if field is None || field == Some("null"@) {
        res matches Err(OidcError::IdTokenDecode(reason)) && reason@ == "missing sub claim"@
    } else {
        match json_string_of(field->0) {
            Some(sub) => res matches Ok(s) && s@ == sub,
            None => res matches Err(OidcError::IdTokenDecode(reason)) && "json: "@.is_prefix_of(
                reason@,
            ),
        }
    }
}

/// Decode the payload of a JWT ID token (without cryptographic verification)
/// and extract the `sub` claim.
///
/// This tells nothing of who made the token.
pub fn extract_id_token_subject(id_token: &str) -> (res: Result<String, OidcError>)
    ensures
        match payload_part(id_token@) {
            None => res matches Err(OidcError::IdTokenDecode(reason)) && reason@
                == "not a valid JWT"@,
            Some(part) => match base64url_of(part) {
                None => res matches Err(OidcError::IdTokenDecode(reason))
                    && "base64: "@.is_prefix_of(reason@),
                Some(bytes) => match record_of(bytes, "sub"@) {
                    None => res matches Err(OidcError::IdTokenDecode(reason))
                        && "json: "@.is_prefix_of(reason@),
                    Some(field) => reads_subject(field, res),
                },
            },
        },
{
    let part = match find_payload(id_token) {
        Some(part) => part,
        None => return Err(OidcError::IdTokenDecode("not a valid JWT".to_owned())),
    };
    let bytes: Vec<u8> = match base64url(part.as_str()) {
        Ok(bytes) => bytes,
        Err(e) => {
            let reason = base64_error_text(&e);
            return Err(OidcError::IdTokenDecode(join2("base64: ", reason.as_str())));
        },
    };
    match read_record(bytes.as_slice(), "sub") {
        Ok(field) => subject_of(field),
        Err(e) => {
            let reason = json_error_text(&e);
            Err(OidcError::IdTokenDecode(join2("json: ", reason.as_str())))
        },
    }
}

/// A token that names its key is verified with the first key of that id, wherever in the
/// set it stands, and there is no key for it only where no key has that id.
pub proof fn lemma_key_by_id(id: Seq<char>, keys: Seq<KeyInfoView>, place: int)
    requires
        0 <= place < keys.len(),
        keys[place].kid == Some(id),
        forall|j: int| 0 <= j < place ==> (#[trigger] keys[j]).kid != Some(id),
    ensures
        is_selected(Some(id), keys, place),
        !none_selected(Some(id), keys),
        forall|other: int| is_selected(Some(id), keys, other) ==> other == place,
{
    assert forall|other: int| is_selected(Some(id), keys, other) implies other == place by {
        lemma_one_selected(Some(id), keys, place, other);
    }
}

/// A key that is selected by its id has that id; where no key has it none is selected.
pub proof fn lemma_selected_key(id: Seq<char>, keys: Seq<KeyInfoView>, index: int)
    ensures
        is_selected(Some(id), keys, index) ==> 0 <= index < keys.len() && keys[index].kid == Some(
            id,
        ),
        none_selected(Some(id), keys) <==> forall|j: int|
            0 <= j < keys.len() ==> (#[trigger] keys[j]).kid != Some(id),
{
}

/// A token that names no key is verified with the first key there is.
pub proof fn lemma_key_without_id(keys: Seq<KeyInfoView>, index: int)
    ensures
        is_selected(None, keys, index) <==> index == 0 && keys.len() > 0,
        none_selected(None, keys) <==> keys.len() == 0,
{
}

/// The verified claims of a token are accepted if and only if subject and issuer are
/// strings, the audience is the client or a list with it, the expiration is at most a
/// minute ago and the time of issue is a number where it is given; and then they are
/// handed out as they stand.
pub proof fn lemma_claims(
    json: Seq<char>,
    members: Seq<(Seq<char>, Seq<char>)>,
    client_id: Seq<char>,
    now: u64,
    res: Result<IdTokenClaims, OidcError>,
)
    requires
        json_object_of(encode_utf8(json)) == Some(members),
        claims_read(json, client_id, now, res),
    ensures
        res is Ok <==> {
            &&& member_of(members, "sub"@) is Some
            &&& json_string_of(member_of(members, "sub"@)->0) is Some
            &&& member_of(members, "iss"@) is Some
            &&& json_string_of(member_of(members, "iss"@)->0) is Some
            &&& member_of(members, "aud"@) is Some
            &&& json_string_of(member_of(members, "aud"@)->0) == Some(client_id) || (json_strings_of(
                member_of(members, "aud"@)->0,
            ) is Some && json_strings_of(member_of(members, "aud"@)->0)->0.contains(client_id))
            &&& member_of(members, "exp"@) is Some
            &&& json_u64_of(member_of(members, "exp"@)->0) is Some
            &&& json_u64_of(member_of(members, "exp"@)->0)->0 + 60 >= now
            &&& member_of(members, "iat"@) is None || member_of(members, "iat"@) == Some("null"@)
                || json_u64_of(member_of(members, "iat"@)->0) is Some
        },
        res is Err ==> res->Err_0 is JwtValidation,
        res is Ok ==> {
            let claims = res->Ok_0;
            &&& json_string_of(member_of(members, "sub"@)->0) == Some(claims.sub@)
            &&& json_string_of(member_of(members, "iss"@)->0) == Some(claims.iss@)
            &&& member_of(members, "aud"@) == Some(claims.aud@)
            &&& json_u64_of(member_of(members, "exp"@)->0) == Some(claims.exp)
            &&& claims.iat is None <==> (member_of(members, "iat"@) is None || member_of(
                members,
                "iat"@,
            ) == Some("null"@))
            &&& claims.iat is Some ==> json_u64_of(member_of(members, "iat"@)->0) == claims.iat
            &&& claims.preferred_username is Some <==> (member_of(members, "preferred_username"@) is Some
                && json_string_of(member_of(members, "preferred_username"@)->0) is Some)
            &&& claims.preferred_username is Some ==> json_string_of(
                member_of(members, "preferred_username"@)->0,
            ) == Some(claims.preferred_username->0@)
        },
{
}

/// Claims that are no JSON object are not accepted.
pub proof fn lemma_no_claims(
    json: Seq<char>,
    client_id: Seq<char>,
    now: u64,
    res: Result<IdTokenClaims, OidcError>,
)
    requires
        json_object_of(encode_utf8(json)) is None,
        claims_read(json, client_id, now, res),
    ensures
        res is Err,
        res->Err_0 is JwtValidation,
{
}

/// What comes of a token whose key is the one at `place` of the key set: with subject,
/// expiration and issuer required and the expiration checked, it is accepted for the
/// discovered issuer and this client by the clock that was read, or it is not valid; what
/// was signed with that key is then read as claims at `now`.
pub proof fn lemma_token_with_key(
    client: &OidcClient,
    token: Seq<char>,
    body: String,
    keys: Seq<KeyInfoView>,
    kid: Option<Seq<char>>,
    alg: Seq<char>,
    place: nat,
    now: u64,
    res: Result<IdTokenClaims, OidcError>,
) -> (clock: u64)
    requires
        client.token_checked(token, Ok(body), now, res),
        jwt_header_of(token) == Some((kid, alg)),
        jwks_of(body@) == Some(keys),
        place < keys.len(),
        kid is Some ==> keys[place as int].kid == kid && forall|j: int|
            0 <= j < place ==> (#[trigger] keys[j]).kid != kid,
        kid is None ==> place == 0,
        alg == "EdDSA"@ ==> keys[place as int].octets is None || base64url_of(
            keys[place as int].octets->0,
        ) is None || base64url_of(keys[place as int].octets->0)->0.len() >= 32,
    ensures
        ({
            let accepted = jwt_accepted(
                token,
                body@,
                place,
                alg,
                client.discovered().issuer@,
                client.id(),
                seq!["sub"@, "exp"@, "iss"@],
                true,
                clock,
            );
            &&& accepted ==> signed_claims_of(token, body@, place, alg) is Some && claims_read(
                signed_claims_of(token, body@, place, alg)->0,
                client.id(),
                now,
                res,
            )
            &&& !accepted ==> res is Err && res->Err_0 is JwtValidation
        }),
{
    assert(is_selected(kid, keys, place as int));
    assert(!none_selected(kid, keys)) by {
        assert(keys[place as int].kid == keys[place as int].kid);
    }
    assert forall|other: int| is_selected(kid, keys, other) implies other == place by {
        lemma_one_selected(kid, keys, place as int, other);
    }
    assert(!key_too_short(kid, alg, keys));
    let (index, clock) = choose|index: nat, clock: u64|
        is_selected(kid, keys, index as int) && #[trigger] client.decided(
            token,
            body@,
            index,
            alg,
            clock,
            now,
            res,
        );
    assert(index == place);
    clock
}

/// A token whose key is not in the set, or whose set is empty where it names none, is not
/// decoded; nor is one to be verified by EdDSA with a key of fewer than 32 bytes.
pub proof fn lemma_token_without_key(
    client: &OidcClient,
    token: Seq<char>,
    body: String,
    keys: Seq<KeyInfoView>,
    kid: Option<Seq<char>>,
    alg: Seq<char>,
    place: int,
    now: u64,
    res: Result<IdTokenClaims, OidcError>,
)
    requires
        client.token_checked(token, Ok(body), now, res),
        jwt_header_of(token) == Some((kid, alg)),
        jwks_of(body@) == Some(keys),
    ensures
        kid is Some && (forall|j: int| 0 <= j < keys.len() ==> (#[trigger] keys[j]).kid != kid)
            ==> res is Err && res->Err_0 is IdTokenDecode && res->Err_0->IdTokenDecode_0@
            == "no JWK with kid \""@ + kid->0 + "\""@,
        kid is None && keys.len() == 0 ==> res is Err && res->Err_0 is IdTokenDecode
            && res->Err_0->IdTokenDecode_0@ == "JWKS is empty"@,
        alg == "EdDSA"@ && 0 <= place < keys.len() && keys[place].octets is Some && base64url_of(
            keys[place].octets->0,
        ) is Some && base64url_of(keys[place].octets->0)->0.len() < 32 && (if kid is Some {
            keys[place].kid == kid && forall|j: int|
                0 <= j < place ==> (#[trigger] keys[j]).kid != kid
        } else {
            place == 0
        }) ==> res is Err && res->Err_0 is IdTokenDecode && res->Err_0->IdTokenDecode_0@
            == "EdDSA key is too short"@,
{
    if alg == "EdDSA"@ && 0 <= place < keys.len() && short_octets(keys[place]) && is_selected(
        kid,
        keys,
        place,
    ) {
        assert(keys[place].kid == keys[place].kid);
        assert(!none_selected(kid, keys));
        assert(key_too_short(kid, alg, keys));
    }
}

/// A token without a readable header is not valid, whatever was fetched; a failed fetch is
/// reported as it is; and a body that is no key set is a failed request.
pub proof fn lemma_token_unread(
    client: &OidcClient,
    token: Seq<char>,
    fetched: Result<String, OidcError>,
    now: u64,
    res: Result<IdTokenClaims, OidcError>,
)
    requires
        client.token_checked(token, fetched, now, res),
    ensures
        jwt_header_of(token) is None ==> res is Err && res->Err_0 is JwtValidation,
        jwt_header_of(token) is Some && fetched is Err ==> res is Err && res->Err_0
            == fetched->Err_0,
        jwt_header_of(token) is Some && fetched is Ok && jwks_of(fetched->Ok_0@) is None
            ==> res is Err && res->Err_0 is Http && "json: "@.is_prefix_of(res->Err_0->Http_0@),
{
}

/// Claims that come of a token are of the discovered issuer and for this client, expired at
/// most a minute ago, and were signed with a key of the fetched set: the first one with
/// the id that the token names, or the first of all.
pub proof fn lemma_validated_claims(
    client: &OidcClient,
    token: Seq<char>,
    fetched: Result<String, OidcError>,
    now: u64,
    claims: IdTokenClaims,
) -> (at: (nat, u64))
    requires
        client.token_checked(token, fetched, now, Ok(claims)),
    ensures
        claims.iss@ == client.discovered().issuer@,
        json_string_of(claims.aud@) == Some(client.id()) || (json_strings_of(claims.aud@) is Some
            && json_strings_of(claims.aud@)->0.contains(client.id())),
        claims.exp + 60 >= now,
        fetched is Ok,
        jwt_header_of(token) is Some,
        jwks_of(fetched->Ok_0@) is Some,
        ({
            let (index, clock) = at;
            let (kid, alg) = jwt_header_of(token)->0;
            let keys = jwks_of(fetched->Ok_0@)->0;
            &&& index < keys.len()
            &&& kid is Some ==> keys[index as int].kid == kid
            &&& kid is None ==> index == 0
            &&& signed_claims_of(token, fetched->Ok_0@, index, alg) is Some
            &&& jwt_accepted(
                token,
                fetched->Ok_0@,
                index,
                alg,
                client.discovered().issuer@,
                client.id(),
                seq!["sub"@, "exp"@, "iss"@],
                true,
                clock,
            )
        }),
{
    let body = fetched->Ok_0;
    let (kid, alg) = jwt_header_of(token)->0;
    let keys = jwks_of(body@)->0;
    assert(client.validated(token, body@, now, claims));
    let (index, clock) = choose|index: nat, clock: u64|
        {
            &&& is_selected(kid, keys, index as int)
            &&& #[trigger] jwt_accepted(
                token,
                body@,
                index,
                alg,
                client.discovered().issuer@,
                client.id(),
                required_claims(),
                true,
                clock,
            )
            &&& client.decided(token, body@, index, alg, clock, now, Ok(claims))
        };
    (index, clock)
}

/// Why a discovery document is refused: a field that is missing, another issuer, or an
/// endpoint that is not an HTTPS URL; the first of them in this order.
pub proof fn lemma_document_refused(
    document: DiscoveryDocument,
    issuer_url: Seq<char>,
    allow_insecure: bool,
    e: OidcError,
)
    requires
        document_refused(document, issuer_url, allow_insecure, e),
    ensures
        document.issuer is None ==> e is MissingField && e->MissingField_0@ == "issuer"@,
        document.issuer is Some && document.token_endpoint is None ==> e is MissingField
            && e->MissingField_0@ == "token_endpoint"@,
        document.issuer is Some && document.token_endpoint is Some
            && document.device_authorization_endpoint is None ==> e is MissingField
            && e->MissingField_0@ == "device_authorization_endpoint"@,
        document.issuer is Some && document.token_endpoint is Some
            && document.device_authorization_endpoint is Some && document.jwks_uri is None
            ==> e is MissingField && e->MissingField_0@ == "jwks_uri"@,
        document.issuer is Some && document.token_endpoint is Some
            && document.device_authorization_endpoint is Some && document.jwks_uri is Some ==> {
            let token_endpoint = document.token_endpoint->0@;
            let device_endpoint = document.device_authorization_endpoint->0@;
            let jwks_uri = document.jwks_uri->0@;
            if without_trailing_slashes(document.issuer->0@) != without_trailing_slashes(issuer_url) {
                e is IssuerMismatch && e->IssuerMismatch_expected@ == issuer_url
                    && e->IssuerMismatch_found@ == document.issuer->0@
            } else {
                &&& !allow_insecure
                &&& e is InsecureEndpoint
                &&& !("https://"@.is_prefix_of(e->InsecureEndpoint_0@))
                &&& e->InsecureEndpoint_0@ == token_endpoint || ("https://"@.is_prefix_of(
                    token_endpoint,
                ) && (e->InsecureEndpoint_0@ == device_endpoint || ("https://"@.is_prefix_of(
                    device_endpoint,
                ) && e->InsecureEndpoint_0@ == jwks_uri)))
            }
        },
{
}

/// Each request to slow down makes the interval longer by five seconds, as far as the
/// number goes, and other replies leave it as it is.
pub proof fn lemma_slowing_down(flow: DeviceFlowView, slow: Seq<bool>)
    ensures
        flow.slowed_down().expires_in == flow.expires_in,
        flow.interval + 5 <= u64::MAX ==> flow.slowed_down().interval == flow.interval + 5,
        flow.interval + 5 > u64::MAX ==> flow.slowed_down().interval == u64::MAX,
        after_replies(flow, Seq::empty()) == flow,
        after_replies(flow, slow.push(false)) == after_replies(flow, slow),
        after_replies(flow, slow.push(true)) == after_replies(flow, slow).slowed_down(),
        slept(flow, Seq::empty()) == 0,
        slept(flow, slow.push(true)) == slept(flow, slow) + after_replies(flow, slow).interval,
        slept(flow, slow.push(false)) == slept(flow, slow) + after_replies(flow, slow).interval,
{
    assert(slow.push(false).drop_last() =~= slow);
    assert(slow.push(true).drop_last() =~= slow);
}

/// The payload of a token is what stands between its first two dots, or behind the first
/// where there is no second; a token without a dot has none.
pub proof fn lemma_payload(head: Seq<char>, payload: Seq<char>, tail: Seq<char>)
    requires
        !head.contains('.'),
        !payload.contains('.'),
    ensures
        payload_part(head) is None,
        payload_part(head + seq!['.'] + payload) == Some(payload),
        payload_part(head + seq!['.'] + payload + seq!['.'] + tail) == Some(payload),
{
    let n = head.len() as int;
    let m = payload.len() as int;
    let short = head + seq!['.'] + payload;
    let long = short + seq!['.'] + tail;
    assert forall|i: int| 0 <= i < n implies head[i] != '.' by {
        assert(head.contains(head[i]));
    }
    assert forall|i: int| 0 <= i < m implies payload[i] != '.' by {
        assert(payload.contains(payload[i]));
    }
    lemma_no_dot(head, 0, n);
    lemma_no_dot(short, 0, n);
    lemma_no_dot(short, n + 1, n + 1 + m);
    lemma_no_dot(long, 0, n);
    lemma_no_dot(long, n + 1, n + 1 + m);
    assert(short.subrange(n + 1, n + 1 + m) =~= payload);
    assert(long.subrange(n + 1, n + 1 + m) =~= payload);
}

proof fn lemma_no_dot(s: Seq<char>, from: int, to: int)
    requires
        0 <= from <= to <= s.len(),
        to < s.len() ==> s[to] == '.',
        forall|i: int| from <= i < to ==> s[i] != '.',
    ensures
        index_from(s, '.', from) == to,
    decreases to - from,
{
    if from < to {
        lemma_no_dot(s, from + 1, to);
    }
}

/// The subject is the string that its field gives, and there is none where the field is
/// left out, `null`, or no string.
pub proof fn lemma_subject(field: Option<Seq<char>>, res: Result<String, OidcError>)
    requires
        reads_subject(field, res),
    ensures
        res is Ok <==> field is Some && field->0 != "null"@ && json_string_of(field->0) is Some,
        res is Ok ==> json_string_of(field->0) == Some(res->Ok_0@),
        res is Err ==> res->Err_0 is IdTokenDecode,
        field is None || field == Some("null"@) ==> res->Err_0->IdTokenDecode_0@
            == "missing sub claim"@,
{
}

/// The reason for a refused poll is the string that its body gives as the field asked for.
pub proof fn lemma_string_field(bytes: Seq<u8>, name: Seq<char>)
    ensures
        string_field_of(bytes, name) is Some <==> record_of(bytes, name) is Some && record_of(
            bytes,
            name,
        )->0 is Some && json_string_of(record_of(bytes, name)->0->0) is Some,
        string_field_of(bytes, name) is Some ==> string_field_of(bytes, name) == json_string_of(
            record_of(bytes, name)->0->0,
        ),
{
}

/// What a refused poll is reported as: a pending authorization, a request to slow down and
/// an expired code by their names, and every other reason as it stands.
pub proof fn lemma_refusal(error: Option<Seq<char>>, body: Seq<char>, err: OidcError)
    requires
        reports_refusal(error, body, err),
    ensures
        err is AuthorizationPending <==> error == Some("authorization_pending"@),
        err is SlowDown <==> error == Some("slow_down"@),
        err is ExpiredToken <==> error == Some("expired_token"@),
        err is TokenError || err is AuthorizationPending || err is SlowDown || err is ExpiredToken,
        err is TokenError ==> err->TokenError_0@ == if error is Some {
            error->0
        } else {
            body
        },
{
    reveal_strlit("authorization_pending");
    reveal_strlit("slow_down");
    reveal_strlit("expired_token");
    assert("authorization_pending"@.len() > "expired_token"@.len() > "slow_down"@.len());
}

/// The form of a request holds its fields as they are, in order.
pub proof fn lemma_form(request: FormRequest)
    ensures
        request@.url == request.url@,
        request@.form.len() == request.form@.len(),
        forall|i: int|
            0 <= i < request.form@.len() ==> #[trigger] request@.form[i] == (
                request.form@[i].0@,
                request.form@[i].1@,
            ),
{
}

/// How the errors are worded.
pub proof fn lemma_oidc_wording(e: OidcError, message: Seq<char>)
    requires
        e.has_message(message),
    ensures
        e matches OidcError::Http(reason) ==> message == "HTTP request failed: "@ + reason@,
        e matches OidcError::Io(reason) ==> message == "I/O error: "@ + reason@,
        e matches OidcError::MissingField(field) ==> message
            == "discovery document missing required field: "@ + field@,
        e matches OidcError::IssuerMismatch { expected, found } ==> message == "discovery issuer \""@
            + found@ + "\" does not match configured issuer \""@ + expected@ + "\""@,
        e matches OidcError::InsecureEndpoint(url) ==> message == "endpoint is not HTTPS: "@ + url@,
        e is AuthorizationPending ==> message
            == "authorization pending — user has not yet completed browser auth"@,
        e is SlowDown ==> message == "polling too fast — increase interval"@,
        e is ExpiredToken ==> message == "device code has expired"@,
        e matches OidcError::TokenError(reason) ==> message == "token request denied: "@ + reason@,
        e is MissingIdToken ==> message == "ID token missing from response"@,
        e matches OidcError::SubjectMismatch { token_sub, expected } ==> message
            == "ID token subject \""@ + token_sub@ + "\" does not match user \""@ + expected@ + "\""@,
        e matches OidcError::IdTokenDecode(reason) ==> message == "failed to decode ID token: "@
            + reason@,
        e is JwtValidation ==> "JWT validation failed: "@.is_prefix_of(message),
{
}

/// Validated claims are of the discovered issuer and for this client, and expired at most
/// a minute ago; the token was accepted with a key of the set that goes by the id that the
/// token names, and they are what was signed with it.
pub proof fn lemma_what_is_validated(
    client: &OidcClient,
    token: Seq<char>,
    body: Seq<char>,
    now: u64,
    claims: IdTokenClaims,
) -> (at: (nat, u64))
    requires
        client.validated(token, body, now, claims),
    ensures
        claims.iss@ == client.discovered().issuer@,
        json_string_of(claims.aud@) == Some(client.id()) || (json_strings_of(claims.aud@) is Some
            && json_strings_of(claims.aud@)->0.contains(client.id())),
        claims.exp + 60 >= now,
        jwt_header_of(token) is Some,
        jwks_of(body) is Some,
        ({
            let (index, clock) = at;
            let (kid, alg) = jwt_header_of(token)->0;
            let keys = jwks_of(body)->0;
            &&& index < keys.len()
            &&& kid is Some ==> keys[index as int].kid == kid
            &&& kid is None ==> index == 0
            &&& signed_claims_of(token, body, index, alg) is Some
            &&& claims_read(signed_claims_of(token, body, index, alg)->0, client.id(), now, Ok(claims))
            &&& jwt_accepted(
                token,
                body,
                index,
                alg,
                client.discovered().issuer@,
                client.id(),
                seq!["sub"@, "exp"@, "iss"@],
                true,
                clock,
            )
        }),
{
    let (kid, alg) = jwt_header_of(token)->0;
    let keys = jwks_of(body)->0;
    choose|index: nat, clock: u64|
        {
            &&& is_selected(kid, keys, index as int)
            &&& #[trigger] jwt_accepted(
                token,
                body,
                index,
                alg,
                client.discovered().issuer@,
                client.id(),
                required_claims(),
                true,
                clock,
            )
            &&& client.decided(token, body, index, alg, clock, now, Ok(claims))
        }
}

} // verus!
