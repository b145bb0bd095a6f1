//! Server configuration values and what is derived from them.
//!
//! The values themselves (bind address, port, data directory, optional token)
//! arrive from the process environment at the boundary of the program; this
//! module holds them and derives the socket address, the effective auth
//! token, and confined data paths.

use vstd::prelude::*;

use crate::hex::dec_seq;
use crate::safe_path::{rejected_shape, safe_resolve, SafePathError};
use crate::token::{all_hex, generate_random_token};

verus! {

/// Base configuration shared by the servers: bind host, port, data directory,
/// and an optional authentication token.
pub struct BaseConfig {
    /// Server bind address.
    pub host: String,
    /// Server port.
    pub port: u16,
    /// Base path for data files.
    pub data_path: String,
    /// Optional authentication token.
    pub auth_token: Option<String>,
}

impl BaseConfig {
    /// Whether authentication is enabled: exactly when a token is configured.
    pub fn auth_enabled(&self) -> (r: bool)
        ensures
            r == (self.auth_token is Some),
    {
        self.auth_token.is_some()
    }

    /// The configured token, or a freshly generated one. The flag says
    /// whether the token was generated here.
    pub fn get_or_generate_token(&self) -> (r: (String, bool))
        ensures
            self.auth_token matches Some(t) ==> r.0@ == t@ && !r.1,
            self.auth_token is None ==> r.1 && r.0@.len() == 32 && all_hex(r.0@),
    {
        match &self.auth_token {
            Some(token) => (token.clone(), false),
            None => {
                let token = generate_random_token();
                (token, true)
            },
        }
    }

    /// The address to bind: the host, a colon, and the port in decimal.
    pub fn socket_addr(&self) -> (r: String)
        ensures
            r@ == self.host@ + seq![':'] + dec_seq(self.port as int),
    {
        let mut s = self.host.clone();
        s.append(":");
        let port = crate::hex::dec_render(self.port as u64);
        s.append(port.as_str());
        proof {
            reveal_strlit(":");
            assert(":"@ =~= seq![':']);
            assert(s@ =~= self.host@ + seq![':'] + dec_seq(self.port as int));
        }
        s
    }

    /// Safely resolve a user-provided path within the data directory:
    /// absolute paths, `..` traversal, and symlinks pointing outside are
    /// refused.
    pub fn resolve_data_path(&self, user_path: &str) -> (r: Result<String, SafePathError>)
        ensures
            rejected_shape(user_path@) ==> r matches Err(SafePathError::PathTraversal),
            r matches Ok(p) ==> !rejected_shape(user_path@),
    {
        safe_resolve(self.data_path.as_str(), user_path)
    }
}

} // verus!
