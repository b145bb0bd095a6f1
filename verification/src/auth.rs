//! Token authentication decisions.
//!
//! A request is authorized when its `Authorization` header carries either the
//! configured token as a Bearer credential, or Basic credentials whose
//! password part (after the first colon of the decoded text, under any user
//! name) equals the token. The decision is a pure function of the header text
//! and the token; the surrounding HTTP middleware applies it and answers
//! unauthorized requests with the challenge this module builds.

use vstd::prelude::*;

use crate::text::{find_char, str_eq, strip_prefix_chars};

verus! {

/// What the standard-alphabet base64 decoding of `s` reads as text, if `s`
/// decodes and the bytes are valid UTF-8. A function of `s` alone.
pub uninterp spec fn base64_text(s: Seq<char>) -> Option<Seq<char>>;

/// Relies on base64's `Engine::decode` with the `STANDARD` engine (strict
/// padding, standard alphabet) and on `String::from_utf8`: both are functions
/// of the input alone, so their composition is named `base64_text`.
#[verifier::external_body]
fn decode_base64_text(input: &str) -> (r: Option<String>)
    ensures
        r matches Some(s) ==> base64_text(input@) == Some(s@),
        r is None ==> base64_text(input@) is None,
{
    match base64::Engine::decode(&base64::engine::general_purpose::STANDARD, input) {
        Ok(bytes) => String::from_utf8(bytes).ok(),
        Err(_) => None,
    }
}

/// The text after the first colon, if any: the password part of decoded
/// Basic credentials, under any user name.
pub open spec fn password_after_colon(d: Seq<char>) -> Option<Seq<char>>
    decreases d.len(),
{
    if d.len() == 0 {
        None
    } else if d[0] == ':' {
        Some(d.drop_first())
    } else {
        password_after_colon(d.drop_first())
    }
}

proof fn lemma_password_at(d: Seq<char>, i: int)
    requires
        0 <= i < d.len(),
        d[i] == ':',
        forall|k: int| 0 <= k < i ==> d[k] != ':',
    ensures
        password_after_colon(d) == Some(d.subrange(i + 1, d.len() as int)),
    decreases i,
{
    if i == 0 {
        assert(d.drop_first() =~= d.subrange(1, d.len() as int));
    } else {
        let t = d.drop_first();
        assert forall|k: int| 0 <= k < i - 1 implies t[k] != ':' by {
            assert(t[k] == d[k + 1]);
        }
        lemma_password_at(t, i - 1);
        assert(t.subrange(i, t.len() as int) =~= d.subrange(i + 1, d.len() as int));
    }
}

proof fn lemma_password_none(d: Seq<char>)
    requires
        forall|k: int| 0 <= k < d.len() ==> d[k] != ':',
    ensures
        password_after_colon(d) is None,
    decreases d.len(),
{
    if d.len() > 0 {
        assert forall|k: int| 0 <= k < d.drop_first().len() implies d.drop_first()[k] != ':' by {
            assert(d.drop_first()[k] == d[k + 1]);
        }
        lemma_password_none(d.drop_first());
    }
}

/// Whether the header text is the Bearer scheme carrying exactly `token`.
pub open spec fn bearer_ok(h: Seq<char>, token: Seq<char>) -> bool {
    &&& h.len() >= 7
    &&& h.subrange(0, 7) == "Bearer "@
    &&& h.skip(7) == token
}

/// Whether the header text is the Basic scheme whose decoded credentials
/// carry `token` as the password part.
pub open spec fn basic_ok(h: Seq<char>, token: Seq<char>) -> bool {
    &&& h.len() >= 6
    &&& h.subrange(0, 6) == "Basic "@
    &&& match base64_text(h.skip(6)) {
        Some(d) => password_after_colon(d) == Some(token),
        None => false,
    }
}

/// The authorization decision: an absent header is refused; a present header
/// is accepted exactly when one of the two schemes matches the token.
pub open spec fn auth_decision(header: Option<Seq<char>>, token: Seq<char>) -> bool {
    match header {
        Some(h) => bearer_ok(h, token) || basic_ok(h, token),
        None => false,
    }
}

/// The challenge line sent with an unauthorized response.
pub open spec fn challenge_of(realm: Seq<char>) -> Seq<char> {
    "Bearer, Basic realm=\""@ + realm + "\""@
}

/// Whether decoded Basic credentials carry `token` as their password part:
/// the text after the first colon, under any user name, must equal the token.
pub fn check_basic_credentials(decoded: &str, token: &str) -> (r: bool)
    ensures
        r == (password_after_colon(decoded@) == Some(token@)),
{
    match find_char(decoded, ':') {
        None => {
            proof {
                lemma_password_none(decoded@);
            }
            false
        },
        Some(i) => {
            let n = decoded.unicode_len();
            let password = decoded.substring_char(i + 1, n);
            proof {
                lemma_password_at(decoded@, i as int);
            }
            str_eq(password, token)
        },
    }
}

/// Configuration for token authentication: the token requests must carry and
/// the realm named in the challenge.
pub struct TokenAuthLayer {
    token: String,
    realm: String,
}

impl TokenAuthLayer {
    /// The configured token.
    pub closed spec fn token_view(&self) -> Seq<char> {
        self.token@
    }

    /// The configured realm.
    pub closed spec fn realm_view(&self) -> Seq<char> {
        self.realm@
    }

    /// Token authentication under the default realm.
    pub fn new(token: String) -> (r: TokenAuthLayer)
        ensures
            r.token_view() == token@,
            r.realm_view() == "mcp-core"@,
    {
        TokenAuthLayer { token, realm: String::from_str("mcp-core") }
    }

    /// Token authentication under a custom realm.
    pub fn with_realm(token: String, realm: String) -> (r: TokenAuthLayer)
        ensures
            r.token_view() == token@,
            r.realm_view() == realm@,
    {
        TokenAuthLayer { token, realm }
    }

    /// The per-request validator this configuration layers around a service.
    pub fn layer(&self) -> (r: TokenAuthService)
        ensures
            r.token_view() == self.token_view(),
            r.realm_view() == self.realm_view(),
    {
        TokenAuthService { token: self.token.clone(), realm: self.realm.clone() }
    }
}

/// Validates the `Authorization` header of one request.
pub struct TokenAuthService {
    token: String,
    realm: String,
}

impl TokenAuthService {
    /// The configured token.
    pub closed spec fn token_view(&self) -> Seq<char> {
        self.token@
    }

    /// The configured realm.
    pub closed spec fn realm_view(&self) -> Seq<char> {
        self.realm@
    }

    /// Decide whether a request carrying `header` as its `Authorization`
    /// value (or none) may pass.
    pub fn authorize(&self, header: Option<&String>) -> (r: bool)
        ensures
            r == auth_decision(
                match header {
                    Some(h) => Some(h@),
                    None => None,
                },
                self.token_view(),
            ),
    {
        match header {
            None => false,
            Some(h) => {
                proof {
                    reveal_strlit("Bearer ");
                    reveal_strlit("Basic ");
                }
                let s = h.as_str();
                let mut ok = false;
                if let Some(rest) = strip_prefix_chars(s, "Bearer ") {
                    if str_eq(rest, self.token.as_str()) {
                        ok = true;
                    }
                }
                if !ok {
                    if let Some(rest) = strip_prefix_chars(s, "Basic ") {
                        if let Some(decoded) = decode_base64_text(rest) {
                            if check_basic_credentials(decoded.as_str(), self.token.as_str()) {
                                ok = true;
                            }
                        }
                    }
                }
                ok
            },
        }
    }

    /// The challenge line for an unauthorized response, naming the realm.
    pub fn challenge(&self) -> (r: String)
        ensures
            r@ == challenge_of(self.realm_view()),
    {
        let mut s = String::from_str("Bearer, Basic realm=\"");
        s.append(self.realm.as_str());
        s.append("\"");
        proof {
            assert(s@ =~= challenge_of(self.realm@));
        }
        s
    }
}

} // verus!
