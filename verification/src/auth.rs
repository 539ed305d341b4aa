//! Bearer-credential validation: each configured token source is tried in
//! order, and the first verified token yields the claims.

use vstd::prelude::*;
use vstd::string::StrSliceExecFns;
use crate::runtime_config::AuthSource;

verus! {

#[verifier::external_type_specification]
#[verifier::external_body]
pub struct ExValue(serde_json::Value);

#[verifier::external_type_specification]
#[verifier::external_body]
pub struct ExDecodingKey(jsonwebtoken::DecodingKey);

#[verifier::external_type_specification]
#[verifier::external_body]
pub struct ExValidation(jsonwebtoken::Validation);

/// The mathematical content of [`Claims`].
pub struct ClaimsView {
    pub sub: Seq<char>,
    pub preferred_username: Seq<char>,
    pub given_name: Seq<char>,
    pub family_name: Seq<char>,
    pub email: Seq<char>,
    pub token_id: Seq<char>,
}

/// The payload of a validated credential.
#[derive(Debug, Clone)]
pub struct Claims {
    pub sub: String,
    pub preferred_username: String,
    pub given_name: String,
    pub family_name: String,
    pub email: String,
    pub token_id: String,
}

impl View for Claims {
    type V = ClaimsView;

    open spec fn view(&self) -> ClaimsView {
        ClaimsView {
            sub: self.sub@,
            preferred_username: self.preferred_username@,
            given_name: self.given_name@,
            family_name: self.family_name@,
            email: self.email@,
            token_id: self.token_id@,
        }
    }
}

/// One issuer: its labels and the verifier state built from its key.
pub struct TokenSource {
    pub name: String,
    pub token_type: String,
    pub validation: jsonwebtoken::Validation,
    pub public_key: jsonwebtoken::DecodingKey,
}

/// What `DecodingKey::from_rsa_pem` accepts: whether the PEM text parses
/// into an RSA verification key is a function of the text alone.
pub uninterp spec fn rsa_pem_accepts(s: Seq<char>) -> bool;

/// Relies on jsonwebtoken::DecodingKey::from_rsa_pem: an RSA verification
/// key from a PEM text, built exactly when the text parses as one.
#[verifier::external_body]
fn rsa_pem_key(pem: &str) -> (r: Option<jsonwebtoken::DecodingKey>)
    ensures
        r is Some <==> rsa_pem_accepts(pem@),
{
    jsonwebtoken::DecodingKey::from_rsa_pem(pem.as_bytes()).ok()
}

/// Relies on jsonwebtoken::Validation: RSA with SHA-256 as the one allowed
/// algorithm, the expiry and issuer claims required to be present, expiry
/// validated with zero leeway, not-before not validated, and issuer and
/// audience pinned to the given values.
#[verifier::external_body]
fn rs256_validation(issuer: &str, audience: &str) -> (r: jsonwebtoken::Validation) {
    let mut v = jsonwebtoken::Validation::new(jsonwebtoken::Algorithm::RS256);
    v.set_required_spec_claims(&["exp", "iss"]);
    v.leeway = 0;
    v.validate_exp = true;
    v.validate_nbf = false;
    v.set_issuer(&[issuer]);
    v.set_audience(&[audience]);
    v.sub = None;
    v
}

/// Relies on jsonwebtoken::decode: checks the token's signature against the
/// key and its registered claims against the validation, and hands back the
/// payload. The outcome also depends on the clock, so nothing more is
/// promised of it.
#[verifier::external_body]
fn jwt_decode(
    token: &str,
    key: &jsonwebtoken::DecodingKey,
    validation: &jsonwebtoken::Validation,
) -> (r: Option<serde_json::Value>) {
    match jsonwebtoken::decode::<serde_json::Value>(token, key, validation) {
        Ok(data) => Some(data.claims),
        Err(_) => None,
    }
}

/// Relies on serde_json::Value::get: the named field of a JSON object, if
/// the value is an object that holds one.
#[verifier::external_body]
fn json_get<'a>(v: &'a serde_json::Value, key: &str) -> (r: Option<&'a serde_json::Value>) {
    v.get(key)
}

/// Relies on serde_json::Value::as_str: the text of a JSON string value.
#[verifier::external_body]
fn json_str(v: &serde_json::Value) -> (r: Option<String>) {
    match v.as_str() {
        Some(s) => Some(s.to_string()),
        None => None,
    }
}

/// The named field of the payload, when it is a string.
fn string_claim(v: &serde_json::Value, key: &str) -> (r: Option<String>) {
    match json_get(v, key) {
        Some(field) => json_str(field),
        None => None,
    }
}

/// Reads the six forwarded claims out of a decoded payload; any missing or
/// non-string field rejects the payload, as a typed deserialization would.
pub fn claims_from_value(v: &serde_json::Value) -> (r: Option<Claims>) {
    let sub = string_claim(v, "sub");
    let preferred_username = string_claim(v, "preferred_username");
    let given_name = string_claim(v, "given_name");
    let family_name = string_claim(v, "family_name");
    let email = string_claim(v, "email");
    let token_id = string_claim(v, "token_id");
    match (sub, preferred_username, given_name, family_name, email, token_id) {
        (
            Some(sub),
            Some(preferred_username),
            Some(given_name),
            Some(family_name),
            Some(email),
            Some(token_id),
        ) => Some(
            Claims { sub, preferred_username, given_name, family_name, email, token_id },
        ),
        _ => None,
    }
}

impl TokenSource {
    /// A verifier for one issuer, built exactly when its public key PEM
    /// parses as an RSA key.
    pub fn new(auth_source: &AuthSource) -> (r: Option<TokenSource>)
        ensures
            r is Some <==> rsa_pem_accepts(auth_source.public_key@),
            r matches Some(ts) ==> ts.name@ == auth_source.name@ && ts.token_type@
                == auth_source.token_type@,
    {
        let validation = rs256_validation(
            auth_source.issuer.as_str(),
            auth_source.audience.as_str(),
        );
        match rsa_pem_key(auth_source.public_key.as_str()) {
            Some(public_key) => Some(
                TokenSource {
                    name: auth_source.name.clone(),
                    token_type: auth_source.token_type.clone(),
                    validation,
                    public_key,
                },
            ),
            None => None,
        }
    }
}

/// Validates a bearer credential against the sources in order and returns
/// the first verified token's claims with that source's type label. A header
/// no longer than the `"Bearer "` prefix is rejected outright; past that,
/// acceptance rests with the sources' keys and the clock.
pub fn get_claims(authorization: &str, sources: &Vec<TokenSource>) -> (r: Option<(Claims, String)>)
    ensures
        authorization@.len() <= 7 ==> r is None,
        r is Some ==> authorization@.len() > 7,
        r is Some ==> exists|i: int|
            0 <= i < sources@.len() && r->Some_0.1@ == #[trigger] sources@[i].token_type@,
{
    let n = authorization.unicode_len();
    // the length of the `"Bearer "` prefix
    if n <= 7 {
        return None;
    }
    let token = authorization.substring_char(7, n);
    let mut i: usize = 0;
    while i < sources.len()
        invariant
            i <= sources.len(),
            authorization@.len() > 7,
        decreases sources.len() - i,
    {
        let source = &sources[i];
        match jwt_decode(token, &source.public_key, &source.validation) {
            Some(payload) => {
                match claims_from_value(&payload) {
                    Some(claims) => {
                        let token_type = source.token_type.clone();
                        proof {
                            assert(token_type@ == sources@[i as int].token_type@);
                        }
                        return Some((claims, token_type));
                    },
                    None => {},
                }
            },
            None => {},
        }
        i += 1;
    }
    None
}

} // verus!
