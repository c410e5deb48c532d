//! The REST catalog front: the handle configuration for a catalog reached
//! over HTTP, and the OAuth token types its authentication exchange uses.
//!
//! The transport itself is I/O and lives outside the library; the handle
//! here carries what the engine reads: the endpoint, the catalog name and
//! the credentials.

use vstd::prelude::*;

verus! {

/// Connection settings of a REST catalog endpoint.
pub struct Configuration {
    pub base_path: String,
    pub user_agent: Option<String>,
    pub basic_auth_user: Option<String>,
    pub basic_auth_password: Option<String>,
    pub oauth_access_token: Option<String>,
    pub bearer_access_token: Option<String>,
    pub api_key: Option<String>,
}

/// The spec-level record of a configuration.
#[verifier::ext_equal]
pub struct ConfigurationView {
    pub base_path: Seq<char>,
    pub user_agent: Option<Seq<char>>,
    pub basic_auth_user: Option<Seq<char>>,
    pub basic_auth_password: Option<Seq<char>>,
    pub oauth_access_token: Option<Seq<char>>,
    pub bearer_access_token: Option<Seq<char>>,
    pub api_key: Option<Seq<char>>,
}

/// The view of an optional string.
pub open spec fn opt_string_view(s: Option<String>) -> Option<Seq<char>> {
    match s {
        Option::Some(x) => Option::Some(x@),
        Option::None => Option::None,
    }
}

impl View for Configuration {
    type V = ConfigurationView;

    open spec fn view(&self) -> ConfigurationView {
        ConfigurationView {
            base_path: self.base_path@,
            user_agent: opt_string_view(self.user_agent),
            basic_auth_user: opt_string_view(self.basic_auth_user),
            basic_auth_password: opt_string_view(self.basic_auth_password),
            oauth_access_token: opt_string_view(self.oauth_access_token),
            bearer_access_token: opt_string_view(self.bearer_access_token),
            api_key: opt_string_view(self.api_key),
        }
    }
}

/// A handle on a catalog served over the REST protocol: the optional
/// catalog name under the endpoint, and the connection settings.
pub struct RestCatalog {
    pub name: Option<String>,
    pub configuration: Configuration,
}

impl RestCatalog {
    /// Creates a handle for the named catalog at the configured endpoint.
    pub fn new(name: Option<&str>, configuration: Configuration) -> (r: RestCatalog)
        ensures
            opt_string_view(r.name) == match name {
                Option::Some(n) => Option::Some(n@),
                Option::None => Option::<Seq<char>>::None,
            },
            r.configuration@ == configuration@,
    {
        RestCatalog {
            name: match name {
                Option::Some(n) => Option::Some(n.to_owned()),
                Option::None => Option::None,
            },
            configuration,
        }
    }
}

/// Token type identifiers exchanged during OAuth token exchange.
#[derive(Clone, Copy, Debug, PartialEq, Eq, Structural)]
pub enum TokenType {
    AccessToken,
    RefreshToken,
    IdToken,
    Saml1,
    Saml2,
    Jwt,
}

/// The URN of a token type.
pub open spec fn token_type_urn(t: TokenType) -> Seq<char> {
    match t {
        TokenType::AccessToken => "urn:ietf:params:oauth:token-type:access_token"@,
        TokenType::RefreshToken => "urn:ietf:params:oauth:token-type:refresh_token"@,
        TokenType::IdToken => "urn:ietf:params:oauth:token-type:id_token"@,
        TokenType::Saml1 => "urn:ietf:params:oauth:token-type:saml1"@,
        TokenType::Saml2 => "urn:ietf:params:oauth:token-type:saml2"@,
        TokenType::Jwt => "urn:ietf:params:oauth:token-type:jwt"@,
    }
}

impl TokenType {
    /// Renders the token type as its URN.
    pub fn to_string(&self) -> (r: String)
        ensures
            r@ == token_type_urn(*self),
    {
        match self {
            TokenType::AccessToken => String::from_str(
                "urn:ietf:params:oauth:token-type:access_token",
            ),
            TokenType::RefreshToken => String::from_str(
                "urn:ietf:params:oauth:token-type:refresh_token",
            ),
            TokenType::IdToken => String::from_str("urn:ietf:params:oauth:token-type:id_token"),
            TokenType::Saml1 => String::from_str("urn:ietf:params:oauth:token-type:saml1"),
            TokenType::Saml2 => String::from_str("urn:ietf:params:oauth:token-type:saml2"),
            TokenType::Jwt => String::from_str("urn:ietf:params:oauth:token-type:jwt"),
        }
    }
}

impl Default for TokenType {
    /// The default token type is an access token.
    fn default() -> (r: TokenType)
        ensures
            r == TokenType::AccessToken,
    {
        TokenType::AccessToken
    }
}

} // verus!
