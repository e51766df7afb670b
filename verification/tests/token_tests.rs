use public_api::token::{bearer_token, claimed_org_id, ApiKeyRecord, OrgApiClaims, PublicToken, TokenError};

fn claims() -> OrgApiClaims {
    OrgApiClaims {
        nbf: 100,
        exp: 200,
        iss: "https://vault.example|api.organization".to_string(),
        sub: "key-1".to_string(),
        client_id: "organization.org-1".to_string(),
        client_sub: "org-1".to_string(),
        scope: vec!["api.organization".to_string()],
    }
}

fn key(uuid: &str, org: &str) -> ApiKeyRecord {
    ApiKeyRecord { uuid: uuid.to_string(), org_uuid: org.to_string() }
}

const ORIGIN: &str = "https://vault.example";

#[test]
fn missing_header_has_no_token() {
    assert_eq!(bearer_token(None), Err(TokenError::NoAccessToken));
}

#[test]
fn token_follows_the_last_bearer() {
    assert_eq!(bearer_token(Some("Bearer abc.def")), Ok("abc.def".to_string()));
    assert_eq!(bearer_token(Some("Bearer x Bearer y")), Ok("y".to_string()));
    assert_eq!(bearer_token(Some("Token Bearer z")), Ok("z".to_string()));
    assert_eq!(bearer_token(Some("Bearer ")), Ok(String::new()));
}

#[test]
fn header_without_bearer_is_the_token() {
    assert_eq!(bearer_token(Some("abc")), Ok("abc".to_string()));
    assert_eq!(bearer_token(Some("bearer abc")), Ok("bearer abc".to_string()));
}

#[test]
fn client_id_names_the_organization() {
    assert_eq!(claimed_org_id(&claims()), Some("org-1".to_string()));
    let mut c = claims();
    c.client_id = "user.org-1".to_string();
    assert_eq!(claimed_org_id(&c), None);
    c.client_id = "organization.".to_string();
    assert_eq!(claimed_org_id(&c), Some(String::new()));
}

#[test]
fn valid_token_stands_for_its_organization() {
    let k = key("key-1", "org-1");
    let t = PublicToken::from_claims(&claims(), 150, ORIGIN, Some(&k)).unwrap();
    assert_eq!(t.org_id(), "org-1");
    assert!(PublicToken::from_claims(&claims(), 100, ORIGIN, Some(&k)).is_ok());
    assert!(PublicToken::from_claims(&claims(), 200, ORIGIN, Some(&k)).is_ok());
}

#[test]
fn token_outside_its_window_is_refused() {
    let k = key("key-1", "org-1");
    assert_eq!(
        PublicToken::from_claims(&claims(), 99, ORIGIN, Some(&k)).err(),
        Some(TokenError::IssuedInFuture)
    );
    assert_eq!(PublicToken::from_claims(&claims(), 201, ORIGIN, Some(&k)).err(), Some(TokenError::Expired));
}

#[test]
fn token_from_another_server_is_refused() {
    let k = key("key-1", "org-1");
    assert_eq!(
        PublicToken::from_claims(&claims(), 150, "https://other.example", Some(&k)).err(),
        Some(TokenError::WrongIssuer)
    );
    let mut c = claims();
    c.scope = vec!["api".to_string()];
    assert_eq!(PublicToken::from_claims(&c, 150, ORIGIN, Some(&k)).err(), Some(TokenError::WrongIssuer));
}

#[test]
fn malformed_client_id_is_refused() {
    let mut c = claims();
    c.client_id = "org-1".to_string();
    assert_eq!(
        PublicToken::from_claims(&c, 150, ORIGIN, Some(&key("key-1", "org-1"))).err(),
        Some(TokenError::MalformedClientId)
    );
}

#[test]
fn token_must_match_the_api_key() {
    assert_eq!(PublicToken::from_claims(&claims(), 150, ORIGIN, None).err(), Some(TokenError::InvalidClientId));
    assert_eq!(
        PublicToken::from_claims(&claims(), 150, ORIGIN, Some(&key("key-1", "org-2"))).err(),
        Some(TokenError::WrongOrganization)
    );
    assert_eq!(
        PublicToken::from_claims(&claims(), 150, ORIGIN, Some(&key("key-2", "org-1"))).err(),
        Some(TokenError::WrongClient)
    );
}

#[test]
fn checks_run_in_order() {
    // An expired token with a wrong issuer and no key reports the expiry.
    assert_eq!(PublicToken::from_claims(&claims(), 500, "x", None).err(), Some(TokenError::Expired));
}

#[test]
fn token_checked_at_the_current_time() {
    let mut c = claims();
    c.nbf = 0;
    c.exp = i64::MAX;
    let k = key("key-1", "org-1");
    let t = PublicToken::from_claims_now(&c, ORIGIN, Some(&k)).unwrap();
    assert_eq!(t.org_id(), "org-1");
    c.exp = 1;
    assert_eq!(PublicToken::from_claims_now(&c, ORIGIN, Some(&k)).err(), Some(TokenError::Expired));
}

#[test]
fn token_error_messages() {
    assert_eq!(TokenError::NoAccessToken.message(), "No access token provided");
    assert_eq!(TokenError::InvalidClaim.message(), "Invalid claim");
    assert_eq!(TokenError::IssuedInFuture.message(), "Token issued in the future");
    assert_eq!(TokenError::Expired.message(), "Token expired");
    assert_eq!(TokenError::WrongIssuer.message(), "Token not issued by this server");
    assert_eq!(TokenError::MalformedClientId.message(), "Malformed client_id");
    assert_eq!(TokenError::InvalidClientId.message(), "Invalid client_id");
    assert_eq!(TokenError::WrongOrganization.message(), "Token not issued for this org");
    assert_eq!(TokenError::WrongClient.message(), "Token not issued for this client");
}

#[test]
fn token_after_non_ascii_text() {
    assert_eq!(bearer_token(Some("ÜberBearer ä€x")), Ok("ä€x".to_string()));
    let mut c = claims();
    c.client_id = "organization.ørg".to_string();
    assert_eq!(claimed_org_id(&c), Some("ørg".to_string()));
}

#[test]
fn token_without_scope_outside_its_window_is_refused_by_time() {
    let mut c = claims();
    c.scope = vec![];
    let k = key("key-1", "org-1");
    assert_eq!(PublicToken::from_claims(&c, 99, ORIGIN, Some(&k)).err(), Some(TokenError::IssuedInFuture));
    assert_eq!(PublicToken::from_claims(&c, 201, ORIGIN, Some(&k)).err(), Some(TokenError::Expired));
    c.nbf = i64::MAX;
    assert_eq!(PublicToken::from_claims_now(&c, ORIGIN, Some(&k)).err(), Some(TokenError::IssuedInFuture));
}
