use vstd::prelude::*;

verus! {

/// `p` occurs in `s` starting at position `i`.
pub open spec fn occurs_at(s: Seq<char>, p: Seq<char>, i: int) -> bool {
    0 <= i && i + p.len() <= s.len() && s.subrange(i, i + p.len()) == p
}

/// `i` is the start of the last occurrence of `p` in `s`.
pub open spec fn is_last_occurrence(s: Seq<char>, p: Seq<char>, i: int) -> bool {
    occurs_at(s, p, i) && forall|j: int| i < j ==> !occurs_at(s, p, j)
}

/// What follows the last occurrence of `p` in `s`, or all of `s` where `p`
/// does not occur.
pub open spec fn text_after_last(s: Seq<char>, p: Seq<char>) -> Seq<char> {
    if exists|i: int| is_last_occurrence(s, p, i) {
        let i = choose|i: int| is_last_occurrence(s, p, i);
        s.subrange(i + p.len(), s.len() as int)
    } else {
        s
    }
}

pub proof fn lemma_last_occurrence_unique(s: Seq<char>, p: Seq<char>, i: int)
    requires
        is_last_occurrence(s, p, i),
    ensures
        text_after_last(s, p) == s.subrange(i + p.len(), s.len() as int),
{
    let k = choose|k: int| is_last_occurrence(s, p, k);
    assert(is_last_occurrence(s, p, k));
    if k < i {
        assert(!occurs_at(s, p, i));
    } else if i < k {
        assert(!occurs_at(s, p, k));
    }
}

/// Whether `delim` occurs in `s` at character position `start`.
fn occurs_at_position(s: &str, delim: &str, start: usize, n: usize, p: usize) -> (b: bool)
    requires
        n == s@.len(),
        p == delim@.len(),
        start + p <= n,
    ensures
        b == occurs_at(s@, delim@, start as int),
{
    let mut k: usize = 0;
    while k < p
        invariant
            n == s@.len(),
            p == delim@.len(),
            start + p <= n,
            0 <= k <= p,
            forall|j: int| 0 <= j < k ==> s@[start + j] == delim@[j],
        decreases p - k,
    {
        if s.get_char(start + k) != delim.get_char(k) {
            assert(s@.subrange(start as int, start + p)[k as int] != delim@[k as int]);
            return false;
        }
        k = k + 1;
    }
    assert(s@.subrange(start as int, start + p) =~= delim@);
    true
}

/// Splits `s` at the last occurrence of `delim`: `None` where `delim` does not
/// occur, else the text before and after the last occurrence.
fn split_at_last_occurrence<'a>(s: &'a str, delim: &str) -> (r: Option<(&'a str, &'a str)>)
    requires
        delim@.len() > 0,
    ensures
        r is None ==> forall|j: int| !occurs_at(s@, delim@, j),
        r matches Some((before, after)) ==> s@ == before@ + delim@ + after@
            && is_last_occurrence(s@, delim@, before@.len() as int),
{
    let n = s.unicode_len();
    let p = delim.unicode_len();
    if p > n {
        return None;
    }
    let mut i: usize = n - p + 1;
    while i > 0
        invariant
            n == s@.len(),
            p == delim@.len(),
            p > 0,
            p <= n,
            0 <= i <= n - p + 1,
            forall|j: int| i <= j ==> !occurs_at(s@, delim@, j),
        decreases i,
    {
        let start = i - 1;
        if occurs_at_position(s, delim, start, n, p) {
            let before = s.substring_char(0, start);
            let after = s.substring_char(start + p, n);
            assert(s@ =~= before@ + delim@ + after@);
            return Some((before, after));
        }
        i = start;
    }
    None
}

/// What follows `prefix` in `s`: `Some` of the rest exactly where `s` starts
/// with `prefix`.
fn strip_text_prefix<'a>(s: &'a str, prefix: &str) -> (r: Option<&'a str>)
    ensures
        r is Some <==> prefix@.is_prefix_of(s@),
        r matches Some(rest) ==> rest@ == s@.skip(prefix@.len() as int),
{
    let n = s.unicode_len();
    let p = prefix.unicode_len();
    if p > n {
        return None;
    }
    let mut k: usize = 0;
    while k < p
        invariant
            n == s@.len(),
            p == prefix@.len(),
            p <= n,
            0 <= k <= p,
            forall|j: int| 0 <= j < k ==> s@[j] == prefix@[j],
        decreases p - k,
    {
        if s.get_char(k) != prefix.get_char(k) {
            assert(s@.subrange(0, p as int)[k as int] != prefix@[k as int]);
            return None;
        }
        k = k + 1;
    }
    assert(prefix@ =~= s@.subrange(0, p as int));
    let rest = s.substring_char(p, n);
    assert(rest@ =~= s@.skip(p as int));
    Some(rest)
}

/// The access token in an `Authorization` header value: what follows the last
/// `Bearer `, or the whole value.
pub fn token_in_header(value: &str) -> (t: String)
    ensures
        t@ == text_after_last(value@, "Bearer "@),
{
    let delim = "Bearer ";
    proof {
        reveal_strlit("Bearer ");
    }
    match split_at_last_occurrence(value, delim) {
        Some((before, after)) => {
            proof {
                let i = before@.len() as int;
                lemma_last_occurrence_unique(value@, delim@, i);
                assert(value@.subrange(i + delim@.len(), value@.len() as int) =~= after@);
            }
            after.to_owned()
        },
        None => {
            assert(!exists|i: int| is_last_occurrence(value@, delim@, i));
            value.to_owned()
        },
    }
}

/// The claims of an organization API token, as decoded from the token.
#[derive(Debug)]
pub struct OrgApiClaims {
    /// Not valid before this time (seconds since the Unix epoch).
    pub nbf: i64,
    /// Not valid after this time (seconds since the Unix epoch).
    pub exp: i64,
    pub iss: String,
    /// The uuid of the API key.
    pub sub: String,
    pub client_id: String,
    /// The uuid of the organization the token was issued for.
    pub client_sub: String,
    pub scope: Vec<String>,
}

/// An organization's API key, as the organization's lookup finds it.
#[derive(Debug)]
pub struct ApiKeyRecord {
    pub uuid: String,
    pub org_uuid: String,
}

/// Why a bearer token is refused.
#[derive(Clone, Copy, Debug, PartialEq, Eq, Structural)]
pub enum TokenError {
    NoAccessToken,
    InvalidClaim,
    IssuedInFuture,
    Expired,
    WrongIssuer,
    MalformedClientId,
    InvalidClientId,
    WrongOrganization,
    WrongClient,
}

/// The message that tells a client why its token was refused.
pub open spec fn token_error_message(e: TokenError) -> Seq<char> {
    match e {
        TokenError::NoAccessToken => "No access token provided"@,
        TokenError::InvalidClaim => "Invalid claim"@,
        TokenError::IssuedInFuture => "Token issued in the future"@,
        TokenError::Expired => "Token expired"@,
        TokenError::WrongIssuer => "Token not issued by this server"@,
        TokenError::MalformedClientId => "Malformed client_id"@,
        TokenError::InvalidClientId => "Invalid client_id"@,
        TokenError::WrongOrganization => "Token not issued for this org"@,
        TokenError::WrongClient => "Token not issued for this client"@,
    }
}

impl TokenError {
    pub fn message(&self) -> (m: String)
        ensures
            m@ == token_error_message(*self),
    {
        match self {
            TokenError::NoAccessToken => String::from_str("No access token provided"),
            TokenError::InvalidClaim => String::from_str("Invalid claim"),
            TokenError::IssuedInFuture => String::from_str("Token issued in the future"),
            TokenError::Expired => String::from_str("Token expired"),
            TokenError::WrongIssuer => String::from_str("Token not issued by this server"),
            TokenError::MalformedClientId => String::from_str("Malformed client_id"),
            TokenError::InvalidClientId => String::from_str("Invalid client_id"),
            TokenError::WrongOrganization => String::from_str("Token not issued for this org"),
            TokenError::WrongClient => String::from_str("Token not issued for this client"),
        }
    }
}

/// The organization id that a client id names: what follows `organization.`.
pub open spec fn org_id_of_client(client_id: Seq<char>) -> Option<Seq<char>> {
    if "organization."@.is_prefix_of(client_id) {
        Some(client_id.skip("organization."@.len() as int))
    } else {
        None
    }
}

/// The organization whose API key a token's client id asks for.
pub fn claimed_org_id(claims: &OrgApiClaims) -> (r: Option<String>)
    ensures
        r matches Some(id) ==> org_id_of_client(claims.client_id@) == Some(id@),
        r is None ==> org_id_of_client(claims.client_id@) is None,
{
    match strip_text_prefix(claims.client_id.as_str(), "organization.") {
        Some(rest) => Some(rest.to_owned()),
        None => None,
    }
}

/// The outcome of checking a token's claims at time `now` against the
/// server's origin and the API key found for the claimed organization: the
/// checks run in order and the first that fails decides the error.
pub open spec fn token_check(
    claims: OrgApiClaims,
    now: i64,
    domain_origin: Seq<char>,
    key: Option<(Seq<char>, Seq<char>)>,
) -> Result<Seq<char>, TokenError> {
    if now < claims.nbf {
        Err(TokenError::IssuedInFuture)
    } else if now > claims.exp {
        Err(TokenError::Expired)
    } else if claims.iss@ != domain_origin + "|"@ + claims.scope@[0]@ {
        Err(TokenError::WrongIssuer)
    } else if org_id_of_client(claims.client_id@) is None {
        Err(TokenError::MalformedClientId)
    } else {
        match key {
            None => Err(TokenError::InvalidClientId),
            Some((key_uuid, key_org)) => if key_org != claims.client_sub@ {
                Err(TokenError::WrongOrganization)
            } else if key_uuid != claims.sub@ {
                Err(TokenError::WrongClient)
            } else {
                Ok(claims.client_sub@)
            },
        }
    }
}

pub open spec fn key_view(key: Option<&ApiKeyRecord>) -> Option<(Seq<char>, Seq<char>)> {
    match key {
        Some(k) => Some((k.uuid@, k.org_uuid@)),
        None => None,
    }
}

/// The current time in seconds since the Unix epoch (`chrono::Utc::now`,
/// then `DateTime::timestamp`); nothing is promised of its value.
#[verifier::external_body]
fn current_timestamp() -> i64 {
    chrono::Utc::now().timestamp()
}

/// Proof that a request comes with a valid API token of an organization; it
/// holds the organization's id.
pub struct PublicToken(String);

impl View for PublicToken {
    type V = Seq<char>;

    closed spec fn view(&self) -> Seq<char> {
        self.0@
    }
}

impl PublicToken {
    /// The organization the token was issued for.
    pub fn org_id(&self) -> (r: &String)
        ensures
            r@ == self@,
    {
        &self.0
    }

    /// Checks a token's claims at time `now`, with `key` the API key found for
    /// the organization that `claimed_org_id` names. The issuer check reads the
    /// first scope, so a token inside its validity window needs one.
    pub fn from_claims(
        claims: &OrgApiClaims,
        now: i64,
        domain_origin: &str,
        key: Option<&ApiKeyRecord>,
    ) -> (r: Result<PublicToken, TokenError>)
        requires
            claims.nbf <= now <= claims.exp ==> claims.scope@.len() > 0,
        ensures
            match token_check(*claims, now, domain_origin@, key_view(key)) {
                Ok(org) => (r matches Ok(t) && t@ == org),
                Err(e) => r == Err::<PublicToken, TokenError>(e),
            },
    {
        if now < claims.nbf {
            return Err(TokenError::IssuedInFuture);
        }
        if now > claims.exp {
            return Err(TokenError::Expired);
        }
        let issuer = String::from_str(domain_origin).concat("|").concat(claims.scope[0].as_str());
        proof {
            reveal_strlit("|");
        }
        if issuer != claims.iss {
            return Err(TokenError::WrongIssuer);
        }
        if claimed_org_id(claims).is_none() {
            return Err(TokenError::MalformedClientId);
        }
        match key {
            None => Err(TokenError::InvalidClientId),
            Some(k) => {
                if k.org_uuid != claims.client_sub {
                    Err(TokenError::WrongOrganization)
                } else if k.uuid != claims.sub {
                    Err(TokenError::WrongClient)
                } else {
                    Ok(PublicToken(claims.client_sub.clone()))
                }
            },
        }
    }

    /// Checks a token's claims at the current time; the outcome is that of
    /// `from_claims` at some time. A token whose validity window is not empty
    /// needs a scope, since the current time may fall inside the window.
    pub fn from_claims_now(
        claims: &OrgApiClaims,
        domain_origin: &str,
        key: Option<&ApiKeyRecord>,
    ) -> (r: Result<PublicToken, TokenError>)
        requires
            claims.nbf <= claims.exp ==> claims.scope@.len() > 0,
        ensures
            exists|now: i64|
                match #[trigger] token_check(*claims, now, domain_origin@, key_view(key)) {
                    Ok(org) => (r matches Ok(t) && t@ == org),
                    Err(e) => r == Err::<PublicToken, TokenError>(e),
                },
    {
        let now = current_timestamp();
        let r = PublicToken::from_claims(claims, now, domain_origin, key);
        assert(match token_check(*claims, now, domain_origin@, key_view(key)) {
            Ok(org) => (r matches Ok(t) && t@ == org),
            Err(e) => r == Err::<PublicToken, TokenError>(e),
        });
        r
    }
}

/// The access token of a request: missing without an `Authorization` header.
pub fn bearer_token(header: Option<&str>) -> (r: Result<String, TokenError>)
    ensures
        header is None ==> r == Err::<String, TokenError>(TokenError::NoAccessToken),
        header matches Some(h) ==> (r matches Ok(t) && t@ == text_after_last(h@, "Bearer "@)),
{
    match header {
        Some(h) => Ok(token_in_header(h)),
        None => Err(TokenError::NoAccessToken),
    }
}

} // verus!
