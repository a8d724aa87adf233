//! The credential set of a client, and the rules that make one usable.

use crate::error::{EdgeGridError, Failure};
use crate::text::{
    blank, chars_of, is_blank, is_whitespace, lemma_trim_end_shape, lemma_trim_is_tight,
    starts_with, text_of, trim, trim_end, trim_start, trimmed, uppercase,
};
use crate::text::same_text;
use vstd::prelude::*;
use vstd::string::StringExecFns;

verus! {

/// The largest number of body bytes that take part in a signature, unless a
/// credential set says otherwise (128 KiB).
pub const MAX_BODY: usize = 131072;

/// The credentials of one client, and the limits it signs under.
#[derive(Debug)]
pub struct EdgeGridConfig {
    /// Identifies the client.
    pub client_token: String,
    /// The secret that signing keys are derived from.
    pub client_secret: String,
    /// Authorises access to the API.
    pub access_token: String,
    /// The API host, as a URL with its scheme.
    pub host: String,
    /// How many bytes of a request body are signed at most.
    pub max_body: usize,
    /// Whether a client built on this set reports what it does.
    pub debug: bool,
    /// The account to act for, where the credentials serve several.
    pub account_switch_key: Option<String>,
}

/// A credential set as contracts speak of it.
pub struct Credentials {
    pub client_token: Seq<char>,
    pub client_secret: Seq<char>,
    pub access_token: Seq<char>,
    pub host: Seq<char>,
    pub max_body: usize,
    pub debug: bool,
    pub account_switch_key: Option<Seq<char>>,
}

impl View for EdgeGridConfig {
    type V = Credentials;

    open spec fn view(&self) -> Credentials {
        Credentials {
            client_token: self.client_token@,
            client_secret: self.client_secret@,
            access_token: self.access_token@,
            host: self.host@,
            max_body: self.max_body,
            debug: self.debug,
            account_switch_key: match self.account_switch_key {
                Some(k) => Some(k@),
                None => None,
            },
        }
    }
}

/// `host` with `https://` in front, unless it starts with that already. A
/// host that is empty or blank has no scheme to carry and stays as it is.
pub open spec fn with_scheme(host: Seq<char>) -> Seq<char> {
    if is_blank(host) || "https://"@.is_prefix_of(host) {
        host
    } else {
        "https://"@ + host
    }
}

/// `host` without one final `/`. The slashes of the scheme `https://` are
/// no final slash: a host of eight characters or fewer stays as it is.
pub open spec fn without_final_slash(host: Seq<char>) -> Seq<char> {
    if host.len() > 8 && host.last() == '/' {
        host.drop_last()
    } else {
        host
    }
}

/// The credential set that `EdgeGridConfig::new` makes of four texts.
pub open spec fn fresh_credentials(
    client_token: Seq<char>,
    client_secret: Seq<char>,
    access_token: Seq<char>,
    host: Seq<char>,
) -> Credentials {
    Credentials {
        client_token,
        client_secret,
        access_token,
        host: with_scheme(host),
        max_body: MAX_BODY,
        debug: false,
        account_switch_key: None,
    }
}

/// The first of the four identity fields that is empty or blank, by the name
/// under which it is reported.
pub open spec fn missing_field(c: Credentials) -> Option<Seq<char>> {
    if is_blank(c.client_token) {
        Some("client_token"@)
    } else if is_blank(c.client_secret) {
        Some("client_secret"@)
    } else if is_blank(c.access_token) {
        Some("access_token"@)
    } else if is_blank(c.host) {
        Some("host"@)
    } else {
        None
    }
}

/// Whether all four identity fields hold more than white space.
pub open spec fn is_complete(c: Credentials) -> bool {
    missing_field(c) is None
}

/// `c` with its four identity fields trimmed: the three tokens as they are,
/// the host given a scheme and freed of one final slash in between.
pub open spec fn normalized(c: Credentials) -> Credentials {
    Credentials {
        client_token: trim(c.client_token),
        client_secret: trim(c.client_secret),
        access_token: trim(c.access_token),
        host: trim(without_final_slash(with_scheme(trim(c.host)))),
        ..c
    }
}

/// What validation makes of `c`: the normalized set, or the complaint about
/// the first missing field.
pub open spec fn validated(c: Credentials) -> Result<Credentials, Failure> {
    match missing_field(c) {
        Some(name) => Err(Failure::MissingCredential(name)),
        None => Ok(normalized(c)),
    }
}

/// The outcome of a fallible constructor, as contracts speak of it.
pub open spec fn outcome(r: Result<EdgeGridConfig, EdgeGridError>) -> Result<
    Credentials,
    Failure,
> {
    match r {
        Ok(c) => Ok(c@),
        Err(e) => Err(e@),
    }
}

/// What stands in front of a variable's name in the environment: `AKAMAI_`
/// for the section `default`, else `AKAMAI_`, the section in capitals and `_`.
pub open spec fn env_prefix_of(section: Seq<char>) -> Seq<char> {
    if section == "default"@ {
        "AKAMAI_"@
    } else {
        "AKAMAI_"@ + uppercase(section) + "_"@
    }
}

/// What `EdgeGridConfig::from_env` makes of the four variables of a section,
/// each given as its value or `None` where it is not set.
pub open spec fn env_credentials(
    section: Seq<char>,
    host: Option<Seq<char>>,
    client_token: Option<Seq<char>>,
    client_secret: Option<Seq<char>>,
    access_token: Option<Seq<char>>,
) -> Result<Credentials, Failure> {
    let prefix = env_prefix_of(section);
    if host is None {
        Err(Failure::EnvError(prefix + "HOST not set"@))
    } else if client_token is None {
        Err(Failure::EnvError(prefix + "CLIENT_TOKEN not set"@))
    } else if client_secret is None {
        Err(Failure::EnvError(prefix + "CLIENT_SECRET not set"@))
    } else if access_token is None {
        Err(Failure::EnvError(prefix + "ACCESS_TOKEN not set"@))
    } else {
        Ok(fresh_credentials(client_token->0, client_secret->0, access_token->0, host->0))
    }
}

/// The body limit of a credential set that names none.
pub fn default_max_body() -> (r: usize)
    ensures
        r == MAX_BODY,
{
    MAX_BODY
}

/// `host` with `https://` in front, unless it is blank or starts with that
/// already.
fn add_scheme(host: String) -> (r: String)
    ensures
        r@ == with_scheme(host@),
{
    if blank(host.as_str()) || starts_with(host.as_str(), "https://") {
        host
    } else {
        "https://".to_string().concat(host.as_str())
    }
}

/// What stands in front of the names of a section's environment variables.
pub fn env_prefix(section: &str) -> (r: String)
    ensures
        r@ == env_prefix_of(section@),
{
    if same_text(section, "default") {
        "AKAMAI_".to_string()
    } else {
        let upper = section.to_uppercase();
        "AKAMAI_".to_string().concat(upper.as_str()).concat("_")
    }
}

/// The names of the four environment variables of a section, in the order in
/// which they are asked for: host, client token, client secret, access token.
pub fn env_names(section: &str) -> (r: Vec<String>)
    ensures
        r@.len() == 4,
        r@[0]@ == env_prefix_of(section@) + "HOST"@,
        r@[1]@ == env_prefix_of(section@) + "CLIENT_TOKEN"@,
        r@[2]@ == env_prefix_of(section@) + "CLIENT_SECRET"@,
        r@[3]@ == env_prefix_of(section@) + "ACCESS_TOKEN"@,
{
    let mut names: Vec<String> = Vec::new();
    names.push(env_prefix(section).concat("HOST"));
    names.push(env_prefix(section).concat("CLIENT_TOKEN"));
    names.push(env_prefix(section).concat("CLIENT_SECRET"));
    names.push(env_prefix(section).concat("ACCESS_TOKEN"));
    names
}

/// The error for a variable that is not set.
fn not_set(section: &str, name: &str) -> (r: EdgeGridError)
    ensures
        r@ == Failure::EnvError(env_prefix_of(section@) + name@ + " not set"@),
{
    EdgeGridError::EnvError(env_prefix(section).concat(name).concat(" not set"))
}

impl Clone for EdgeGridConfig {
    fn clone(&self) -> (r: Self)
        ensures
            r@ == self@,
    {
        let account_switch_key = match &self.account_switch_key {
            Some(k) => Some(k.clone()),
            None => None,
        };
        EdgeGridConfig {
            client_token: self.client_token.clone(),
            client_secret: self.client_secret.clone(),
            access_token: self.access_token.clone(),
            host: self.host.clone(),
            max_body: self.max_body,
            debug: self.debug,
            account_switch_key,
        }
    }
}

impl EdgeGridConfig {
    /// A credential set of the three tokens and the host, with the default
    /// body limit. Nothing is checked here; the host is given the scheme
    /// `https://` unless it has it, or is blank.
    pub fn new(client_token: String, client_secret: String, access_token: String, host: String) -> (r:
        Self)
        ensures
            r@ == fresh_credentials(client_token@, client_secret@, access_token@, host@),
    {
        let host = add_scheme(host);
        EdgeGridConfig {
            client_token,
            client_secret,
            access_token,
            host,
            max_body: MAX_BODY,
            debug: false,
            account_switch_key: None,
        }
    }

    /// The credential set that the environment holds for a section. The
    /// caller reads the four variables named by `env_names` and hands in the
    /// value of each, or `None` for one that is not set; the first that is not
    /// set is reported.
    pub fn from_env(
        section: &str,
        host: Option<String>,
        client_token: Option<String>,
        client_secret: Option<String>,
        access_token: Option<String>,
    ) -> (r: Result<Self, EdgeGridError>)
        ensures
            outcome(r) == env_credentials(
                section@,
                text_view(host),
                text_view(client_token),
                text_view(client_secret),
                text_view(access_token),
            ),
    {
        let host = match host {
            Some(h) => h,
            None => {
                proof {
                    assert(env_prefix_of(section@) + "HOST"@ + " not set"@ =~= env_prefix_of(
                        section@,
                    ) + "HOST not set"@) by {
                        lemma_not_set_texts();
                    }
                }
                return Err(not_set(section, "HOST"));
            },
        };
        let client_token = match client_token {
            Some(t) => t,
            None => {
                proof {
                    assert(env_prefix_of(section@) + "CLIENT_TOKEN"@ + " not set"@
                        =~= env_prefix_of(section@) + "CLIENT_TOKEN not set"@) by {
                        lemma_not_set_texts();
                    }
                }
                return Err(not_set(section, "CLIENT_TOKEN"));
            },
        };
        let client_secret = match client_secret {
            Some(t) => t,
            None => {
                proof {
                    assert(env_prefix_of(section@) + "CLIENT_SECRET"@ + " not set"@
                        =~= env_prefix_of(section@) + "CLIENT_SECRET not set"@) by {
                        lemma_not_set_texts();
                    }
                }
                return Err(not_set(section, "CLIENT_SECRET"));
            },
        };
        let access_token = match access_token {
            Some(t) => t,
            None => {
                proof {
                    assert(env_prefix_of(section@) + "ACCESS_TOKEN"@ + " not set"@
                        =~= env_prefix_of(section@) + "ACCESS_TOKEN not set"@) by {
                        lemma_not_set_texts();
                    }
                }
                return Err(not_set(section, "ACCESS_TOKEN"));
            },
        };
        Ok(EdgeGridConfig::new(client_token, client_secret, access_token, host))
    }

    /// Checks that the four identity fields hold more than white space, trims
    /// them, and puts the host in its normal form: with the scheme, without a
    /// final slash. The first field that fails is reported by its name.
    pub fn validate_config(config: EdgeGridConfig) -> (r: Result<Self, EdgeGridError>)
        ensures
            outcome(r) == validated(config@),
    {
        let mut config = config;
        if blank(config.client_token.as_str()) {
            return Err(EdgeGridError::MissingCredential("client_token".to_string()));
        }
        if blank(config.client_secret.as_str()) {
            return Err(EdgeGridError::MissingCredential("client_secret".to_string()));
        }
        if blank(config.access_token.as_str()) {
            return Err(EdgeGridError::MissingCredential("access_token".to_string()));
        }
        if blank(config.host.as_str()) {
            return Err(EdgeGridError::MissingCredential("host".to_string()));
        }
        config.client_token = trimmed(config.client_token.as_str());
        config.client_secret = trimmed(config.client_secret.as_str());
        config.access_token = trimmed(config.access_token.as_str());
        let host = add_scheme(trimmed(config.host.as_str()));
        let chars = chars_of(host.as_str());
        let n = chars.len();
        let cut = if n > 8 && chars[n - 1] == '/' {
            proof {
                assert(chars@.subrange(0, n - 1) =~= chars@.drop_last());
            }
            text_of(&chars, 0, n - 1)
        } else {
            host
        };
        config.host = trimmed(cut.as_str());
        Ok(config)
    }
}

/// A validated credential set has its four identity fields non-empty and
/// trimmed: none starts or ends with white space. Its host starts with the
/// scheme `https://`.
pub proof fn lemma_validated_fields_are_trimmed(c: Credentials)
    requires
        validated(c) is Ok,
    ensures
        is_complete(validated(c)->Ok_0),
        is_trimmed(validated(c)->Ok_0.client_token),
        is_trimmed(validated(c)->Ok_0.client_secret),
        is_trimmed(validated(c)->Ok_0.access_token),
        is_trimmed(validated(c)->Ok_0.host),
        "https://"@.is_prefix_of(validated(c)->Ok_0.host),
{
    reveal_strlit("https://");
    lemma_trim_is_tight(c.client_token);
    lemma_trim_is_tight(c.client_secret);
    lemma_trim_is_tight(c.access_token);
    lemma_trim_is_tight(c.host);
    let t = trim(c.host);
    let h = with_scheme(t);
    let scheme = "https://"@;
    assert(scheme.is_prefix_of(h)) by {
        if !scheme.is_prefix_of(t) {
            assert(h.subrange(0, 8) =~= scheme);
        }
    }
    assert(h.len() >= 8 && h.subrange(0, 8) == scheme);
    let w = without_final_slash(h);
    assert(w.len() >= 8 && w.subrange(0, 8) =~= scheme);
    assert(w[0] == 'h' && w[7] == '/') by {
        assert(w.subrange(0, 8)[0] == w[0]);
        assert(w.subrange(0, 8)[7] == w[7]);
    }
    lemma_trim_is_tight(w);
    assert(trim_start(w) == w);
    lemma_trim_end_shape(w);
    let k = trim_end(w).len() as int;
    if k < 8 {
        assert(is_whitespace(w[7]));
    }
    assert(trim(w).subrange(0, 8) =~= scheme);
}

/// Whether `s` is not empty and neither starts nor ends with white space.
pub open spec fn is_trimmed(s: Seq<char>) -> bool {
    s.len() > 0 && !is_whitespace(s.first()) && !is_whitespace(s.last()) && trim(s) == s
}

/// The view of a text that may be absent.
pub open spec fn text_view(t: Option<String>) -> Option<Seq<char>> {
    match t {
        Some(s) => Some(s@),
        None => None,
    }
}

/// The complaint about a variable is its name followed by ` not set`.
proof fn lemma_not_set_texts()
    ensures
        "HOST"@ + " not set"@ == "HOST not set"@,
        "CLIENT_TOKEN"@ + " not set"@ == "CLIENT_TOKEN not set"@,
        "CLIENT_SECRET"@ + " not set"@ == "CLIENT_SECRET not set"@,
        "ACCESS_TOKEN"@ + " not set"@ == "ACCESS_TOKEN not set"@,
{
    reveal_strlit(" not set");
    reveal_strlit("HOST");
    reveal_strlit("HOST not set");
    reveal_strlit("CLIENT_TOKEN");
    reveal_strlit("CLIENT_TOKEN not set");
    reveal_strlit("CLIENT_SECRET");
    reveal_strlit("CLIENT_SECRET not set");
    reveal_strlit("ACCESS_TOKEN");
    reveal_strlit("ACCESS_TOKEN not set");
    assert("HOST"@ + " not set"@ =~= "HOST not set"@);
    assert("CLIENT_TOKEN"@ + " not set"@ =~= "CLIENT_TOKEN not set"@);
    assert("CLIENT_SECRET"@ + " not set"@ =~= "CLIENT_SECRET not set"@);
    assert("ACCESS_TOKEN"@ + " not set"@ =~= "ACCESS_TOKEN not set"@);
}

} // verus!
