//! A client's view of the API: whose requests it signs, and where they go.
//!
//! The client holds no connection. The transport in use asks it for the URL of
//! a request and for the signature, and sends the request itself.

use crate::address::{join_url, joined_url, parse_url, parsed_url};
use crate::auth::EdgeGridAuth;
use crate::config::{
    fresh_credentials, is_complete, missing_field, with_scheme, Credentials, EdgeGridConfig,
};
use crate::error::{EdgeGridError, Failure};
use crate::text::{
    blank, is_blank, is_whitespace, lemma_trim_end_shape, trim_end, trim_start,
};
use vstd::prelude::*;
use vstd::string::StringExecFns;

verus! {

/// A client of the API of one host, with the credentials it signs under.
#[derive(Debug)]
pub struct EdgeGridClient {
    auth: EdgeGridAuth,
    base_url: String,
}

impl Clone for EdgeGridClient {
    fn clone(&self) -> (r: Self)
        ensures
            r.credentials() == self.credentials(),
            r.base() == self.base(),
    {
        EdgeGridClient { auth: self.auth.clone(), base_url: self.base_url.clone() }
    }
}

/// The URL that a request for `path` goes to: `path` resolved against the
/// base URL; where that fails, the URL written as the base followed by
/// `path`; where that is no URL either, the base.
pub open spec fn resolved_url(base: Seq<char>, path: Seq<char>) -> Seq<char> {
    match joined_url(base, path) {
        Some(u) => u,
        None => match parsed_url(base + path) {
            Some(u) => u,
            None => base,
        },
    }
}

impl EdgeGridClient {
    /// The credential set that the client signs under.
    pub closed spec fn credentials(&self) -> Credentials {
        self.auth@
    }

    /// The base URL of the client, as text.
    pub closed spec fn base(&self) -> Seq<char> {
        self.base_url@
    }

    /// A client for `config`. The four identity fields must hold more than
    /// white space, and the host must be a URL; the first field that fails is
    /// reported by its name, before the host is read as a URL.
    pub fn new(config: EdgeGridConfig) -> (r: Result<Self, EdgeGridError>)
        ensures
            match r {
                Ok(client) => is_complete(config@) && client.credentials() == config@
                    && parsed_url(config@.host) == Some(client.base()),
                Err(e) => match missing_field(config@) {
                    Some(name) => e@ == Failure::MissingCredential(name),
                    None => e@ is UrlError && parsed_url(config@.host) is None,
                },
            },
    {
        if blank(config.client_token.as_str()) {
            return Err(EdgeGridError::MissingCredential("client_token".to_string()));
        }
        if blank(config.client_secret.as_str()) {
            return Err(EdgeGridError::MissingCredential("client_secret".to_string()));
        }
        if blank(config.access_token.as_str()) {
            return Err(EdgeGridError::MissingCredential("access_token".to_string()));
        }
        if blank(config.host.as_str()) {
            return Err(EdgeGridError::MissingCredential("host".to_string()));
        }
        let base_url = match parse_url(config.host.as_str()) {
            Ok(u) => u,
            Err(e) => {
                return Err(EdgeGridError::UrlError(e));
            },
        };
        Ok(EdgeGridClient { auth: EdgeGridAuth::new(config), base_url })
    }

    /// A client for the section `section` of the credentials text `content`.
    pub fn from_edgerc(content: &str, section: &str) -> (r: Result<Self, EdgeGridError>)
        ensures
            match r {
                Ok(client) => crate::edgerc::edgerc_credentials(content@, section@) == Ok::<
                    Credentials,
                    Failure,
                >(client.credentials()) && is_complete(client.credentials()) && parsed_url(
                    client.credentials().host,
                ) == Some(client.base()),
                Err(e) => match crate::edgerc::edgerc_credentials(content@, section@) {
                    Ok(c) => match missing_field(c) {
                        Some(name) => e@ == Failure::MissingCredential(name),
                        None => e@ is UrlError && parsed_url(c.host) is None,
                    },
                    Err(f) => e@ == f,
                },
            },
    {
        match EdgeGridConfig::from_edgerc(content, section) {
            Ok(config) => EdgeGridClient::new(config),
            Err(e) => Err(e),
        }
    }

    /// The signer of the client.
    pub fn auth(&self) -> (r: &EdgeGridAuth)
        ensures
            r@ == self.credentials(),
    {
        &self.auth
    }

    /// The base URL of the client.
    pub fn base_url(&self) -> (r: &str)
        ensures
            r@ == self.base(),
    {
        self.base_url.as_str()
    }

    /// The URL that a request for `path` goes to.
    pub fn request_url(&self, path: &str) -> (r: String)
        ensures
            r@ == resolved_url(self.base(), path@),
    {
        match join_url(self.base_url.as_str(), path) {
            Some(url) => url,
            None => {
                let written = self.base_url.clone().concat(path);
                match parse_url(written.as_str()) {
                    Ok(url) => url,
                    Err(_) => self.base_url.clone(),
                }
            },
        }
    }
}

/// A credential set in which one of the four identity fields is empty or
/// blank is refused by `EdgeGridClient::new` with `MissingCredential`: such a
/// set has a missing field.
pub proof fn lemma_blank_field_is_missing(c: Credentials)
    requires
        is_blank(c.client_token) || is_blank(c.client_secret) || is_blank(c.access_token)
            || is_blank(c.host),
    ensures
        missing_field(c) is Some,
        !is_complete(c),
{
}

/// A host is blank after `EdgeGridConfig::new` exactly where it was blank
/// before: the scheme is put in front of a host that is not blank only.
pub proof fn lemma_host_with_scheme_is_blank_as_given(host: Seq<char>)
    ensures
        is_blank(with_scheme(host)) == is_blank(host),
{
    reveal_strlit("https://");
    let h = with_scheme(host);
    if !is_blank(host) && !"https://"@.is_prefix_of(host) {
        assert(h.len() >= 8 && h[0] == 'h');
        assert(trim_start(h) == h);
        lemma_trim_end_shape(h);
        if trim_end(h).len() == 0 {
            assert(is_whitespace(h[0]));
        }
    }
}

/// The credential set that `EdgeGridConfig::new` makes of four texts is
/// refused by `EdgeGridClient::new` with `MissingCredential` exactly where
/// one of the four is empty or blank, the host too.
pub proof fn lemma_fresh_credentials_miss_a_blank_field(
    client_token: Seq<char>,
    client_secret: Seq<char>,
    access_token: Seq<char>,
    host: Seq<char>,
)
    ensures
        missing_field(fresh_credentials(client_token, client_secret, access_token, host))
            is Some <==> is_blank(client_token) || is_blank(client_secret) || is_blank(
            access_token,
        ) || is_blank(host),
        is_blank(Seq::<char>::empty()),
{
    lemma_host_with_scheme_is_blank_as_given(host);
}

} // verus!
