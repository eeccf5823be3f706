//! Choosing the credentials of requests to a model provider.
//!
//! The provider's configuration resolves to one way of authenticating
//! (`ProviderAuth`); this module decides, from that and from what the
//! environment and the signed-in account supply, which token and account
//! the requests carry.

use vstd::prelude::*;
use crate::text::{chars_of, is_blank, trim_chars};

verus! {

broadcast use vstd::string::group_string_axioms;

/// How a resolved provider authenticates.
#[derive(Debug)]
pub enum ProviderAuth {
    /// A bearer token read from the environment variable `env_key`.
    EnvBearer { env_key: String, env_key_instructions: Option<String> },
    /// A bearer token given in the provider's configuration.
    ExperimentalBearer { token: String },
    /// The OpenAI account of the user.
    OpenAi,
    /// A token from an external command, supplied through the account.
    ExternalBearer,
    /// No provider-specific authentication.
    NoAuth,
}

/// The credentials requests carry.
#[derive(Debug)]
pub struct CoreAuthProvider {
    pub token: Option<String>,
    pub account_id: Option<String>,
}

/// Why no credentials could be chosen.
#[derive(Debug)]
pub enum AuthError {
    /// The provider's configuration could not be resolved.
    Fatal(String),
    /// The environment variable `var` is unset or blank.
    EnvVar { var: String, instructions: Option<String> },
    /// The account could not supply a token.
    Token(String),
}

/// What the signed-in account supplies: its token (or the error getting
/// it) and its account id.
#[derive(Debug)]
pub struct CodexAuth {
    pub token: Result<String, String>,
    pub account_id: Option<String>,
}

/// Credentials from the signed-in account: its token and account id, or
/// none at all without an account.
pub open spec fn from_codex_auth(auth: Option<CodexAuth>) -> Result<(Option<Seq<char>>, Option<Seq<char>>), AuthError> {
    match auth {
        Some(a) => match a.token {
            Ok(t) => Ok((Some(t@), opt(a.account_id))),
            Err(e) => Err(AuthError::Token(e)),
        },
        None => Ok((None, None)),
    }
}

pub open spec fn opt(x: Option<String>) -> Option<Seq<char>> {
    match x {
        Some(s) => Some(s@),
        None => None,
    }
}

/// The credentials for a provider: the resolution error as fatal; for an
/// environment bearer, the variable's value unless it is unset or blank
/// (then the variable and its instructions as the error); for a configured
/// bearer, its token; otherwise what the signed-in account supplies.
pub open spec fn chosen_auth(
    auth: Option<CodexAuth>,
    provider: Result<ProviderAuth, String>,
    env_value: Option<String>,
) -> Result<(Option<Seq<char>>, Option<Seq<char>>), AuthError> {
    match provider {
        Err(e) => Err(AuthError::Fatal(e)),
        Ok(ProviderAuth::EnvBearer { env_key, env_key_instructions }) => match env_value {
            Some(v) => if is_blank(v@) {
                Err(AuthError::EnvVar { var: env_key, instructions: env_key_instructions })
            } else {
                Ok((Some(v@), None))
            },
            None => Err(AuthError::EnvVar { var: env_key, instructions: env_key_instructions }),
        },
        Ok(ProviderAuth::ExperimentalBearer { token }) => Ok((Some(token@), None)),
        Ok(_) => from_codex_auth(auth),
    }
}

/// The credentials as plain values.
pub open spec fn credentials(r: Result<CoreAuthProvider, AuthError>) -> Result<(Option<Seq<char>>, Option<Seq<char>>), AuthError> {
    match r {
        Ok(p) => Ok((opt(p.token), opt(p.account_id))),
        Err(e) => Err(e),
    }
}

fn auth_provider_from_codex_auth(auth: Option<CodexAuth>) -> (r: Result<CoreAuthProvider, AuthError>)
    ensures
        credentials(r) == from_codex_auth(auth),
{
    match auth {
        Some(a) => match a.token {
            Ok(t) => Ok(CoreAuthProvider { token: Some(t), account_id: a.account_id }),
            Err(e) => Err(AuthError::Token(e)),
        },
        None => Ok(CoreAuthProvider { token: None, account_id: None }),
    }
}

/// Choose the credentials of requests to a provider.  `provider` is the
/// provider's resolved authentication (or the resolution error), and
/// `env_value` the value of the environment variable an environment bearer
/// names (`None` when unset).
pub fn auth_provider_from_auth(
    auth: Option<CodexAuth>,
    provider: Result<ProviderAuth, String>,
    env_value: Option<String>,
) -> (r: Result<CoreAuthProvider, AuthError>)
    ensures
        credentials(r) == chosen_auth(auth, provider, env_value),
{
    match provider {
        Err(e) => Err(AuthError::Fatal(e)),
        Ok(ProviderAuth::EnvBearer { env_key, env_key_instructions }) => {
            match env_value {
                Some(v) => {
                    let t = trim_chars(&chars_of(v.as_str()));
                    if t.len() == 0 {
                        Err(AuthError::EnvVar { var: env_key, instructions: env_key_instructions })
                    } else {
                        Ok(CoreAuthProvider { token: Some(v), account_id: None })
                    }
                },
                None => Err(AuthError::EnvVar { var: env_key, instructions: env_key_instructions }),
            }
        },
        Ok(ProviderAuth::ExperimentalBearer { token }) => Ok(
            CoreAuthProvider { token: Some(token), account_id: None },
        ),
        Ok(_) => auth_provider_from_codex_auth(auth),
    }
}

} // verus!
