//! What the PAM module answers and what it tells the user.
use crate::json::text_view;
use crate::model::User;
use crate::oidc::{IdTokenClaims, OidcClient, OidcError, TokenResponse};
use crate::scim::{ScimError, ScimUser};
use crate::service::{Service, ServiceError};
use crate::text::{join2, join3, same_text};
use vstd::prelude::*;

verus! {

/// PAM return codes (from <security/pam_modules.h>).
pub const PAM_SUCCESS: i32 = 0;

/// The user is not allowed in.
pub const PAM_PERM_DENIED: i32 = 6;

/// The user could not be authenticated.
pub const PAM_AUTH_ERR: i32 = 7;

/// The service that knows the user cannot be reached.
pub const PAM_AUTHINFO_UNAVAIL: i32 = 9;

/// The password cannot be changed here.
pub const PAM_AUTHTOK_ERR: i32 = 20;

/// The module has no say.
pub const PAM_IGNORE: i32 = 25;

/// PAM message style for information (from <security/pam_appl.h>).
pub const PAM_TEXT_INFO: i32 = 4;

/// The PAM item that holds the conversation.
pub const PAM_CONV: i32 = 5;

/// PAM handle (opaque — it is never looked into, only passed through).
pub struct PamHandle {
    _opaque: (),
}

/// The PAM username: what libpam handed out, where it returned success and handed
/// out a text; else the code it returned.
pub fn pam_user(ret: i32, user: Option<String>) -> (res: Result<String, i32>)
    ensures
        match user {
            Some(name) => if ret == PAM_SUCCESS {
                res == Ok::<String, i32>(name)
            } else {
                res == Err::<String, i32>(ret)
            },
            None => res == Err::<String, i32>(ret),
        },
        res is Ok <==> ret == 0 && user is Some,
{
    match user {
        Some(name) => {
            if ret == PAM_SUCCESS {
                Ok(name)
            } else {
                Err(ret)
            }
        },
        None => Err(ret),
    }
}

/// What the user is told to do in the browser.
pub fn sign_in_message(user_code: &str, verification_uri: &str) -> (message: String)
    ensures
        message@ == "To sign in, visit: "@ + verification_uri@ + "\nEnter code: "@ + user_code@
            + "\nWaiting for authentication..."@,
{
    let mut message = join3("To sign in, visit: ", verification_uri, "\nEnter code: ");
    message.append(user_code);
    message.append("\nWaiting for authentication...");
    message
}

/// What the user is told who wants to change the password.
pub fn change_password_message(issuer_url: &str) -> (message: String)
    ensures
        message@ == ("Password changes are not supported via PAM for OIDC accounts.\n"@
            + "Please change your password at your identity provider:\n  "@) + issuer_url@,
{
    let mut message = join2(
        "Password changes are not supported via PAM for OIDC accounts.\n",
        "Please change your password at your identity provider:\n  ",
    );
    message.append(issuer_url);
    message
}

/// Whether the claims are of the user with this name: the subject is that name or the
/// external id that the user is known by, or the preferred user name is that name.
pub open spec fn claims_of_user(
    claims: IdTokenClaims,
    username: Seq<char>,
    external_id: Option<Seq<char>>,
) -> bool {
    ||| claims.sub@ == username
    ||| external_id == Some(claims.sub@)
    ||| text_view(claims.preferred_username) == Some(username)
}

/// Whether a token response proves that the user with this name signed in, with the
/// key set `body` at `now`: it holds an ID token, which was validated, has not expired
/// and is of that user.
pub open spec fn proves_user(
    client: &OidcClient,
    token: TokenResponse,
    body: Seq<char>,
    now: u64,
    username: Seq<char>,
    external_id: Option<Seq<char>>,
) -> bool {
    exists|id_token: Seq<char>, claims: IdTokenClaims|
        {
            &&& text_view(token.id_token) == Some(id_token)
            &&& #[trigger] client.validated(id_token, body, now, claims)
            &&& claims_of_user(claims, username, external_id)
        }
}

/// Whether `res` says if the claims are of the user with this name.
pub open spec fn subject_checked(
    claims: IdTokenClaims,
    username: Seq<char>,
    external_id: Option<Seq<char>>,
    res: Result<(), OidcError>,
) -> bool {
    if claims_of_user(claims, username, external_id) {
        res is Ok
    } else {
        res matches Err(OidcError::SubjectMismatch { token_sub, expected }) && token_sub@
            == claims.sub@ && expected@ == username
    }
}

/// Checks that the claims are of the user with this name, whose external id is
/// `external_id` if it is known.
pub fn check_subject(claims: &IdTokenClaims, username: &str, external_id: &Option<String>) -> (res:
    Result<(), OidcError>)
    ensures
        subject_checked(*claims, username@, text_view(*external_id), res),
        res is Ok <==> claims.sub@ == username@ || (*external_id is Some && external_id->0@
            == claims.sub@) || (claims.preferred_username is Some && claims.preferred_username->0@
            == username@),
        res is Err ==> res->Err_0 is SubjectMismatch && res->Err_0->token_sub@ == claims.sub@
            && res->Err_0->SubjectMismatch_expected@ == username@,
{
    if same_text(claims.sub.as_str(), username) {
        return Ok(());
    }
    match external_id {
        Some(id) => {
            if same_text(claims.sub.as_str(), id.as_str()) {
                return Ok(());
            }
        },
        None => {},
    }
    match &claims.preferred_username {
        Some(name) => {
            if same_text(name.as_str(), username) {
                return Ok(());
            }
        },
        None => {},
    }
    Err(
        OidcError::SubjectMismatch {
            token_sub: claims.sub.clone(),
            expected: username.to_owned(),
        },
    )
}

/// What comes of verifying a token response: it has to hold an ID token, which has to
/// be valid and of the user with this name.
pub open spec fn token_verified(
    client: &OidcClient,
    token: TokenResponse,
    fetched: Result<String, OidcError>,
    now: u64,
    username: Seq<char>,
    external_id: Option<Seq<char>>,
    res: Result<(), OidcError>,
) -> bool {
    match token.id_token {
        None => res matches Err(e) && e is MissingIdToken,
        Some(id_token) => exists|checked: Result<IdTokenClaims, OidcError>|
            {
                &&& #[trigger] client.token_checked(id_token@, fetched, now, checked)
                &&& match checked {
                    Ok(claims) => subject_checked(claims, username, external_id, res),
                    Err(e) => res == Err::<(), OidcError>(e),
                }
            },
    }
}

/// Verifies what came of the device authorization grant: the response has to hold a
/// valid ID token of the user with this name, whose external id is `external_id` if it
/// is known. `fetched` is what came of fetching the discovered `jwks_uri`, and `now` the
/// time in seconds of the Unix epoch.
pub fn verify_token(
    client: &OidcClient,
    token: &TokenResponse,
    fetched: Result<String, OidcError>,
    now: u64,
    username: &str,
    external_id: &Option<String>,
) -> (res: Result<(), OidcError>)
    ensures
        token_verified(client, *token, fetched, now, username@, text_view(*external_id), res),
        res is Ok ==> (fetched matches Ok(body) && proves_user(
            client,
            *token,
            body@,
            now,
            username@,
            text_view(*external_id),
        )),
{
    match &token.id_token {
        Some(id_token) => {
            let checked: Result<IdTokenClaims, OidcError> = client.validate_id_token(
                id_token.as_str(),
                fetched,
                now,
            );
            assert(client.token_checked(id_token@, fetched, now, checked));
            match checked {
                Ok(claims) => check_subject(&claims, username, external_id),
                Err(e) => Err(e),
            }
        },
        None => Err(OidcError::MissingIdToken),
    }
}

/// Where an authentication stopped.
#[derive(Debug)]
pub enum AuthFailure {
    /// PAM gave no username.
    NoUser,
    /// The configuration could not be loaded.
    NoConfig,
    /// OIDC discovery failed.
    NoDiscovery,
    /// The device authorization grant or the token failed.
    Oidc(OidcError),
}

/// The external id of the user that a lookup found.
pub open spec fn found_id(user: Result<Option<User>, ServiceError>) -> Option<Seq<char>> {
    match user {
        Ok(Some(known)) => Some(known.external_id@),
        _ => None,
    }
}

/// Concludes an authentication of the user with this name: the device authorization
/// grant came to `flow`, the lookup of the user to `user`, and fetching the discovered
/// `jwks_uri` to `fetched`; `now` is the time in seconds of the Unix epoch. It succeeds
/// only with a token that proves to be of that user and has not expired.
pub fn conclude_authentication(
    client: &OidcClient,
    flow: Result<TokenResponse, OidcError>,
    username: &str,
    user: Result<Option<User>, ServiceError>,
    fetched: Result<String, OidcError>,
    now: u64,
) -> (res: Result<(), AuthFailure>)
    ensures
        match flow {
            Err(e) => res == Err::<(), AuthFailure>(AuthFailure::Oidc(e)),
            Ok(token) => {
                &&& match res {
                    Ok(_) => token_verified(
                        client,
                        token,
                        fetched,
                        now,
                        username@,
                        found_id(user),
                        Ok(()),
                    ),
                    Err(AuthFailure::Oidc(e)) => token_verified(
                        client,
                        token,
                        fetched,
                        now,
                        username@,
                        found_id(user),
                        Err(e),
                    ),
                    Err(_) => false,
                }
                &&& res is Ok ==> (fetched matches Ok(body) && proves_user(
                    client,
                    token,
                    body@,
                    now,
                    username@,
                    found_id(user),
                ))
            },
        },
{
    let token: TokenResponse = match flow {
        Ok(token) => token,
        Err(e) => return Err(AuthFailure::Oidc(e)),
    };
    let external_id: Option<String> = match user {
        Ok(Some(known)) => Some(known.external_id),
        _ => None,
    };
    match verify_token(client, &token, fetched, now, username, &external_id) {
        Ok(_) => Ok(()),
        Err(e) => Err(AuthFailure::Oidc(e)),
    }
}

/// What `pam_sm_authenticate` returns.
pub fn authenticate_code(res: &Result<(), AuthFailure>) -> (code: i32)
    ensures
        code == match *res {
            Ok(_) => PAM_SUCCESS,
            Err(AuthFailure::NoUser) => PAM_AUTH_ERR,
            Err(AuthFailure::NoConfig) => PAM_AUTHINFO_UNAVAIL,
            Err(AuthFailure::NoDiscovery) => PAM_AUTHINFO_UNAVAIL,
            Err(AuthFailure::Oidc(_)) => PAM_AUTH_ERR,
        },
        code == 0 <==> *res is Ok,
        code == 9 <==> *res is Err && (res->Err_0 is NoConfig || res->Err_0 is NoDiscovery),
        code == 7 <==> *res is Err && (res->Err_0 is NoUser || res->Err_0 is Oidc),
{
    match res {
        Ok(_) => PAM_SUCCESS,
        Err(AuthFailure::NoUser) => PAM_AUTH_ERR,
        Err(AuthFailure::NoConfig) => PAM_AUTHINFO_UNAVAIL,
        Err(AuthFailure::NoDiscovery) => PAM_AUTHINFO_UNAVAIL,
        Err(AuthFailure::Oidc(_)) => PAM_AUTH_ERR,
    }
}

/// Where the check of an account stopped.
#[derive(Debug)]
pub enum AccountFailure {
    /// PAM gave no username.
    NoUser,
    /// The configuration could not be loaded, or the cache could not be opened.
    NoService,
    /// The user could not be looked up.
    Lookup(ServiceError),
}

/// What `pam_sm_acct_mgmt` returns for a check that came to `active`.
pub open spec fn account_code_of(active: Result<bool, AccountFailure>) -> i32 {
    match active {
        Ok(true) => PAM_SUCCESS,
        Ok(false) => PAM_PERM_DENIED,
        Err(AccountFailure::NoUser) => PAM_AUTH_ERR,
        Err(AccountFailure::NoService) => PAM_AUTHINFO_UNAVAIL,
        Err(AccountFailure::Lookup(_)) => PAM_AUTHINFO_UNAVAIL,
    }
}

/// What `pam_sm_acct_mgmt` returns.
pub fn account_code(active: &Result<bool, AccountFailure>) -> (code: i32)
    ensures
        code == account_code_of(*active),
        code == 0 <==> *active is Ok && active->Ok_0,
        code == 6 <==> *active is Ok && !active->Ok_0,
        code == 7 <==> *active is Err && active->Err_0 is NoUser,
        code == 9 <==> *active is Err && !(active->Err_0 is NoUser),
{
    match active {
        Ok(true) => PAM_SUCCESS,
        Ok(false) => PAM_PERM_DENIED,
        Err(AccountFailure::NoUser) => PAM_AUTH_ERR,
        Err(AccountFailure::NoService) => PAM_AUTHINFO_UNAVAIL,
        Err(AccountFailure::Lookup(_)) => PAM_AUTHINFO_UNAVAIL,
    }
}

/// The check of an account, given what came of asking whether the user is active.
pub open spec fn account_checked(active: Result<bool, ServiceError>) -> Result<bool, AccountFailure> {
    match active {
        Ok(active) => Ok(active),
        Err(e) => Err(AccountFailure::Lookup(e)),
    }
}

/// Account management — check if user is active/authorized. `scim` is what SCIM said
/// to [`Service::user_by_name_request`]. The result goes to [`account_code`].
pub fn acct_mgmt(
    service: &mut Service,
    name: &str,
    scim: Result<Option<ScimUser>, ScimError>,
    now: i64,
) -> (res: Result<bool, AccountFailure>)
    requires
        old(service).ranges_valid(),
    ensures
        exists|active: Result<bool, ServiceError>| #[trigger]
            old(service).activity_checked(final(service), name@, scim, now, active) && res
                == account_checked(active),
{
    let active = service.check_user_active(name, scim, now);
    assert(old(service).activity_checked(service, name@, scim, now, active));
    match active {
        Ok(active) => Ok(active),
        Err(e) => Err(AccountFailure::Lookup(e)),
    }
}

/// The numbers are those of libpam.
pub proof fn lemma_pam_numbers()
    ensures
        PAM_SUCCESS == 0,
        PAM_PERM_DENIED == 6,
        PAM_AUTH_ERR == 7,
        PAM_AUTHINFO_UNAVAIL == 9,
        PAM_AUTHTOK_ERR == 20,
        PAM_IGNORE == 25,
        PAM_TEXT_INFO == 4,
        PAM_CONV == 5,
{
}

/// Claims are a user's exactly where their subject is the name or the known external id,
/// or their preferred user name is the name.
pub proof fn lemma_whose_claims(
    claims: IdTokenClaims,
    username: Seq<char>,
    external_id: Option<Seq<char>>,
    res: Result<(), OidcError>,
)
    requires
        subject_checked(claims, username, external_id, res),
    ensures
        res is Ok <==> claims.sub@ == username || external_id == Some(claims.sub@) || (
        claims.preferred_username is Some && claims.preferred_username->0@ == username),
        claims_of_user(claims, username, external_id) <==> res is Ok,
        res is Err ==> res->Err_0 is SubjectMismatch && res->Err_0->token_sub@ == claims.sub@
            && res->Err_0->SubjectMismatch_expected@ == username,
{
}

/// A user is let in exactly where there is an ID token, its validation came to claims, and
/// those are the user's; else the error says what is wrong with the token.
pub proof fn lemma_who_is_let_in(
    client: &OidcClient,
    token: TokenResponse,
    fetched: Result<String, OidcError>,
    now: u64,
    username: Seq<char>,
    external_id: Option<Seq<char>>,
    res: Result<(), OidcError>,
) -> (checked: Result<IdTokenClaims, OidcError>)
    requires
        token_verified(client, token, fetched, now, username, external_id, res),
    ensures
        token.id_token is None ==> res is Err && res->Err_0 is MissingIdToken,
        token.id_token is Some ==> {
            &&& client.token_checked(token.id_token->0@, fetched, now, checked)
            &&& checked is Err ==> res is Err && res->Err_0 == checked->Err_0
            &&& checked is Ok ==> (res is Ok <==> checked->Ok_0.sub@ == username || external_id
                == Some(checked->Ok_0.sub@) || (checked->Ok_0.preferred_username is Some
                && checked->Ok_0.preferred_username->0@ == username))
        },
{
    let id_token = token.id_token->0;
    choose|checked: Result<IdTokenClaims, OidcError>|
        {
            &&& #[trigger] client.token_checked(id_token@, fetched, now, checked)
            &&& match checked {
                Ok(claims) => subject_checked(claims, username, external_id, res),
                Err(e) => res == Err::<(), OidcError>(e),
            }
        }
}

/// What proves a user are validated claims of the ID token that name the user.
pub proof fn lemma_proof_of_user(
    client: &OidcClient,
    token: TokenResponse,
    body: Seq<char>,
    now: u64,
    username: Seq<char>,
    external_id: Option<Seq<char>>,
) -> (claims: IdTokenClaims)
    requires
        proves_user(client, token, body, now, username, external_id),
    ensures
        token.id_token is Some,
        client.validated(token.id_token->0@, body, now, claims),
        claims.sub@ == username || external_id == Some(claims.sub@) || (
        claims.preferred_username is Some && claims.preferred_username->0@ == username),
{
    let (id_token, claims) = choose|id_token: Seq<char>, claims: IdTokenClaims|
        {
            &&& text_view(token.id_token) == Some(id_token)
            &&& #[trigger] client.validated(id_token, body, now, claims)
            &&& claims_of_user(claims, username, external_id)
        };
    claims
}

/// The external id is that of the user who was found, and is unknown where nobody was.
pub proof fn lemma_found_id(user: Result<Option<User>, ServiceError>)
    ensures
        found_id(user) is Some <==> user is Ok && user->Ok_0 is Some,
        user is Ok && user->Ok_0 is Some ==> found_id(user)->0 == user->Ok_0->0.external_id@,
{
}

/// An account is in order exactly where its user is active, and one that could not be
/// looked up is not taken for one that is.
pub proof fn lemma_account(active: Result<bool, ServiceError>)
    ensures
        active is Ok ==> account_checked(active) is Ok && account_checked(active)->Ok_0
            == active->Ok_0,
        active is Err ==> account_checked(active) is Err && account_checked(active)->Err_0 is Lookup
            && account_checked(active)->Err_0->Lookup_0 == active->Err_0,
        account_code_of(account_checked(active)) == 0 <==> active is Ok && active->Ok_0,
        account_code_of(account_checked(active)) == 6 <==> active is Ok && !active->Ok_0,
        account_code_of(account_checked(active)) == 9 <==> active is Err,
{
}

} // verus!
