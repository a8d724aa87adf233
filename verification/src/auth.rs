//! The signing engine: from a request and a credential set to the value of
//! the `Authorization` header.
//!
//! The text that is signed has seven fields, joined by tabs: the method in
//! capitals, the scheme, the host, the path with the query, the canonical
//! headers, the content hash, and the start of the header value itself, which
//! carries the tokens, the timestamp and the nonce. The signing key is derived
//! from the client secret and the timestamp; the signature is the HMAC-SHA256
//! code of the text under that key, in base64.

use crate::canonical::{canonical_headers, canonicalize, headers_view, HeaderView};
use crate::config::{Credentials, EdgeGridConfig};
use crate::context::{create_nonce, create_timestamp, is_nonce, is_timestamp};
use crate::edgerc::edgerc_credentials;
use crate::error::{EdgeGridError, Failure};
use crate::primitives::{
    base64, base64_decode, base64_decoded, base64_encode, hmac_sha256, hmac_sha256_code, sha256,
    sha256_digest,
};
use crate::request::{
    designated_headers, full_path, header_value_accepts, is_designated, is_header_value,
    with_authorization, RequestDescriptor, RequestView,
};
use crate::text::{eq_ignore_ascii_case, same_name, same_text, uppercase};
use vstd::prelude::*;
use vstd::slice::slice_subrange;
use vstd::string::StringExecFns;
use vstd::utf8::encode_utf8;

verus! {

/// Signs requests for one credential set.
#[derive(Debug)]
pub struct EdgeGridAuth {
    config: EdgeGridConfig,
}

impl View for EdgeGridAuth {
    type V = Credentials;

    closed spec fn view(&self) -> Credentials {
        self.config@
    }
}

impl Clone for EdgeGridAuth {
    fn clone(&self) -> (r: Self)
        ensures
            r@ == self@,
    {
        EdgeGridAuth { config: self.config.clone() }
    }
}

/// The content hash of a request: the SHA-256 digest, in base64, of the body
/// of a `POST`, cut to its first `max_body` bytes; empty for any other method
/// and for a request without a body.
pub open spec fn content_hash(method: Seq<char>, body: Option<Seq<u8>>, max_body: usize) -> Seq<
    char,
> {
    if method != "POST"@ {
        Seq::<char>::empty()
    } else {
        match body {
            Some(bytes) => base64(
                sha256(
                    if bytes.len() > max_body {
                        bytes.take(max_body as int)
                    } else {
                        bytes
                    },
                ),
            ),
            None => Seq::<char>::empty(),
        }
    }
}

/// The header value up to the signature: the scheme's name, the two tokens,
/// the timestamp and the nonce.
pub open spec fn auth_prefix(c: Credentials, timestamp: Seq<char>, nonce: Seq<char>) -> Seq<char> {
    "EG1-HMAC-SHA256 client_token="@ + c.client_token + ";access_token="@ + c.access_token
        + ";timestamp="@ + timestamp + ";nonce="@ + nonce + ";"@
}

/// The text that is signed.
pub open spec fn data_to_sign(
    c: Credentials,
    method: Seq<char>,
    scheme: Seq<char>,
    host: Seq<char>,
    path: Seq<char>,
    headers: Seq<HeaderView>,
    content_hash: Seq<char>,
    timestamp: Seq<char>,
    nonce: Seq<char>,
) -> Seq<char> {
    uppercase(method) + "\t"@ + scheme + "\t"@ + host + "\t"@ + path + "\t"@ + canonical_headers(
        headers,
    ) + "\t"@ + content_hash + "\t"@ + auth_prefix(c, timestamp, nonce)
}

/// The signing key for a timestamp: the HMAC-SHA256 code of the timestamp
/// under the client secret, in base64.
pub open spec fn signing_key(secret: Seq<char>, timestamp: Seq<char>) -> Seq<char> {
    base64(hmac_sha256(encode_utf8(secret), encode_utf8(timestamp)))
}

/// The signature of `data` under a signing key given in base64: the
/// HMAC-SHA256 code of `data` under the bytes of the key, in base64. There is
/// none where the key is not base64.
pub open spec fn signature(data: Seq<char>, key: Seq<char>) -> Option<Seq<char>> {
    match base64_decoded(key) {
        Some(bytes) => Some(base64(hmac_sha256(bytes, encode_utf8(data)))),
        None => None,
    }
}

/// The value of the `Authorization` header for the given parts of a request.
pub open spec fn auth_header(
    c: Credentials,
    method: Seq<char>,
    scheme: Seq<char>,
    host: Seq<char>,
    path: Seq<char>,
    headers: Seq<HeaderView>,
    content_hash: Seq<char>,
    timestamp: Seq<char>,
    nonce: Seq<char>,
) -> Option<Seq<char>> {
    match signature(
        data_to_sign(c, method, scheme, host, path, headers, content_hash, timestamp, nonce),
        signing_key(c.client_secret, timestamp),
    ) {
        Some(s) => Some(signed_value(auth_prefix(c, timestamp, nonce), s)),
        None => None,
    }
}

/// The header value made of its start and the signature.
pub open spec fn signed_value(prefix: Seq<char>, signature: Seq<char>) -> Seq<char> {
    prefix + "signature="@ + signature
}

/// Whether `value` is `prefix`, `signature=` and a signature of 44
/// characters, the length of a SHA-256 code in base64.
pub open spec fn is_signed_value(value: Seq<char>, prefix: Seq<char>) -> bool {
    exists|signature: Seq<char>|
        signature.len() == 44 && value == #[trigger] signed_value(prefix, signature)
}

/// The value of the `Authorization` header for a request, signed at
/// `timestamp` with `nonce`.
pub open spec fn authorization(
    c: Credentials,
    r: RequestView,
    timestamp: Seq<char>,
    nonce: Seq<char>,
) -> Option<Seq<char>> {
    auth_header(
        c,
        r.method,
        r.scheme,
        r.host,
        full_path(r.path, r.query),
        designated_headers(r.headers, r.headers_to_sign),
        content_hash(r.method, r.body, c.max_body),
        timestamp,
        nonce,
    )
}

/// The request with its signature attached; none where no header value can be
/// made, or where the value may not stand in a header.
pub open spec fn signed_request(
    c: Credentials,
    r: RequestView,
    timestamp: Seq<char>,
    nonce: Seq<char>,
) -> Option<RequestView> {
    match authorization(c, r, timestamp, nonce) {
        Some(value) => if is_header_value(value) {
            Some(with_authorization(r, value))
        } else {
            None
        },
        None => None,
    }
}

/// The outcome of making a signer, as contracts speak of it.
pub open spec fn signer_outcome(r: Result<EdgeGridAuth, EdgeGridError>) -> Result<
    Credentials,
    Failure,
> {
    match r {
        Ok(a) => Ok(a@),
        Err(e) => Err(e@),
    }
}

/// Whether `name` is one of `names`, up to the case of ASCII letters.
fn designates(names: &Vec<String>, name: &str) -> (r: bool)
    ensures
        r == is_designated(names@.map_values(|n: String| n@), name@),
{
    let ghost texts = names@.map_values(|n: String| n@);
    let mut k: usize = 0;
    while k < names.len()
        invariant
            k <= names.len(),
            texts == names@.map_values(|n: String| n@),
            forall|j: int| 0 <= j < k ==> !eq_ignore_ascii_case(#[trigger] texts[j], name@),
        decreases names.len() - k,
    {
        if same_name(names[k].as_str(), name) {
            assert(eq_ignore_ascii_case(texts[k as int], name@));
            return true;
        }
        k += 1;
    }
    false
}

impl EdgeGridAuth {
    /// A signer for `config`.
    pub fn new(config: EdgeGridConfig) -> (r: Self)
        ensures
            r@ == config@,
    {
        EdgeGridAuth { config }
    }

    /// A signer for the section `section` of the credentials text `content`.
    pub fn from_edgerc(content: &str, section: &str) -> (r: Result<Self, EdgeGridError>)
        ensures
            signer_outcome(r) == edgerc_credentials(content@, section@),
    {
        match EdgeGridConfig::from_edgerc(content, section) {
            Ok(config) => Ok(EdgeGridAuth::new(config)),
            Err(e) => Err(e),
        }
    }

    /// The credential set that the signer works for.
    pub fn config(&self) -> (r: &EdgeGridConfig)
        ensures
            r@ == self@,
    {
        &self.config
    }

    /// Whether only the first bytes of the body of `request` are signed: the
    /// method is `POST` and the body is longer than the credential set's
    /// limit.
    pub fn signs_part_of_body(&self, request: &RequestDescriptor) -> (r: bool)
        ensures
            r == (request@.method == "POST"@ && request@.body is Some && request@.body->0.len()
                > self@.max_body),
    {
        if !same_text(request.method.as_str(), "POST") {
            return false;
        }
        match &request.body {
            Some(bytes) => bytes.len() > self.config.max_body,
            None => false,
        }
    }

    /// Signs `request`: makes a timestamp and a nonce, computes the header
    /// value for them, and attaches it as the `Authorization` header. It fails
    /// only where the clock has no timestamp, or where the request cannot be
    /// signed at the timestamp and with the nonce that were made; the request
    /// is then left as it was.
    pub fn sign_request(&self, request: &mut RequestDescriptor) -> (r: Result<(), EdgeGridError>)
        ensures
            match r {
                Ok(_) => exists|timestamp: Seq<char>, nonce: Seq<char>|
                    is_timestamp(timestamp) && is_nonce(nonce) && #[trigger] signed_request(
                        self@,
                        old(request)@,
                        timestamp,
                        nonce,
                    ) == Some(final(request)@) && is_signed_value(
                        authorization(self@, old(request)@, timestamp, nonce)->0,
                        auth_prefix(self@, timestamp, nonce),
                    ),
                Err(e) => e@ is AuthError && final(request)@ == old(request)@ && (e@
                    == Failure::AuthError("The clock shows no time that a timestamp can write"@)
                    || exists|timestamp: Seq<char>, nonce: Seq<char>|
                    is_timestamp(timestamp) && is_nonce(nonce) && #[trigger] signed_request(
                        self@,
                        old(request)@,
                        timestamp,
                        nonce,
                    ) is None),
            },
    {
        let timestamp = match create_timestamp() {
            Ok(t) => t,
            Err(e) => {
                return Err(e);
            },
        };
        let nonce = create_nonce();
        self.sign_request_with(request, timestamp.as_str(), nonce.as_str())
    }

    /// Signs `request` at `timestamp` with `nonce`: computes the header value
    /// and attaches it as the `Authorization` header. Where no value can be
    /// made, or the value may not stand in a header, the request is left as
    /// it was.
    pub fn sign_request_with(
        &self,
        request: &mut RequestDescriptor,
        timestamp: &str,
        nonce: &str,
    ) -> (r: Result<(), EdgeGridError>)
        ensures
            match r {
                Ok(_) => signed_request(self@, old(request)@, timestamp@, nonce@) == Some(
                    final(request)@,
                ) && is_signed_value(
                    authorization(self@, old(request)@, timestamp@, nonce@)->0,
                    auth_prefix(self@, timestamp@, nonce@),
                ),
                Err(e) => signed_request(self@, old(request)@, timestamp@, nonce@) is None && e@
                    is AuthError && final(request)@ == old(request)@,
            },
    {
        let path = request.full_path();
        let headers = self.get_headers_to_sign(request);
        let hash = match self.calculate_content_hash(request) {
            Ok(h) => h,
            Err(e) => {
                return Err(e);
            },
        };
        let value = match self.create_auth_header(
            request.method.as_str(),
            request.scheme.as_str(),
            request.host.as_str(),
            path.as_str(),
            &headers,
            hash.as_str(),
            timestamp,
            nonce,
        ) {
            Ok(v) => v,
            Err(e) => {
                return Err(e);
            },
        };
        if !header_value_accepts(value.as_str()) {
            return Err(
                EdgeGridError::AuthError(
                    "The authorization value cannot stand in a header".to_string(),
                ),
            );
        }
        request.set_authorization(value);
        Ok(())
    }

    /// The headers of `request` that take part in the signature: those whose
    /// name the request designates, in the order in which they stand.
    pub fn get_headers_to_sign(&self, request: &RequestDescriptor) -> (r: Vec<(String, String)>)
        ensures
            headers_view(r@) == designated_headers(request@.headers, request@.headers_to_sign),
    {
        let ghost given = request@.headers;
        let ghost names = request@.headers_to_sign;
        let mut chosen: Vec<(String, String)> = Vec::new();
        let mut i: usize = 0;
        proof {
            assert(given.take(0) =~= Seq::<HeaderView>::empty());
            assert(headers_view(chosen@) =~= Seq::<HeaderView>::empty());
        }
        while i < request.headers.len()
            invariant
                i <= request.headers.len(),
                given == request@.headers,
                names == request@.headers_to_sign,
                headers_view(chosen@) == designated_headers(given.take(i as int), names),
            decreases request.headers.len() - i,
        {
            proof {
                assert(given.take(i + 1).drop_last() =~= given.take(i as int));
                assert(given.take(i + 1).last() == given[i as int]);
                assert(given[i as int] == (
                    request.headers@[i as int].0@,
                    request.headers@[i as int].1@,
                ));
            }
            let found = designates(&request.headers_to_sign, request.headers[i].0.as_str());
            if found {
                let ghost so_far = headers_view(chosen@);
                chosen.push((request.headers[i].0.clone(), request.headers[i].1.clone()));
                proof {
                    assert(headers_view(chosen@) =~= so_far.push(given[i as int]));
                }
            }
            i += 1;
        }
        proof {
            assert(given.take(request.headers.len() as int) =~= given);
        }
        chosen
    }

    /// The content hash of `request`: empty unless the method is `POST` and a
    /// body is at hand; else the SHA-256 digest, in base64, of the body, or
    /// of its first bytes where it is longer than the credential set's limit.
    pub fn calculate_content_hash(&self, request: &RequestDescriptor) -> (r: Result<
        String,
        EdgeGridError,
    >)
        ensures
            r is Ok,
            r->Ok_0@ == content_hash(request@.method, request@.body, self@.max_body),
            r->Ok_0@.len() == (if request@.method == "POST"@ && request@.body is Some {
                44nat
            } else {
                0nat
            }),
    {
        if !same_text(request.method.as_str(), "POST") {
            return Ok(String::new());
        }
        match &request.body {
            Some(bytes) => {
                let limit = self.config.max_body;
                let part: &[u8] = if bytes.len() > limit {
                    slice_subrange(bytes.as_slice(), 0, limit)
                } else {
                    bytes.as_slice()
                };
                proof {
                    if bytes.len() > limit {
                        assert(bytes@.subrange(0, limit as int) =~= bytes@.take(limit as int));
                    }
                }
                let digest = sha256_digest(part);
                Ok(base64_encode(digest.as_slice()))
            },
            None => Ok(String::new()),
        }
    }

    /// The value of the `Authorization` header for the given parts of a
    /// request: the start of the value, `signature=`, and the signature of
    /// the text to sign under the signing key of `timestamp`.
    pub fn create_auth_header(
        &self,
        method: &str,
        scheme: &str,
        host: &str,
        path: &str,
        headers_to_sign: &Vec<(String, String)>,
        content_hash: &str,
        timestamp: &str,
        nonce: &str,
    ) -> (r: Result<String, EdgeGridError>)
        ensures
            match r {
                Ok(v) => auth_header(
                    self@,
                    method@,
                    scheme@,
                    host@,
                    path@,
                    headers_view(headers_to_sign@),
                    content_hash@,
                    timestamp@,
                    nonce@,
                ) == Some(v@) && is_signed_value(v@, auth_prefix(self@, timestamp@, nonce@)),
                Err(e) => auth_header(
                    self@,
                    method@,
                    scheme@,
                    host@,
                    path@,
                    headers_view(headers_to_sign@),
                    content_hash@,
                    timestamp@,
                    nonce@,
                ) is None && e@ is AuthError,
            },
    {
        let data = self.build_data_to_sign(
            method,
            scheme,
            host,
            path,
            headers_to_sign,
            content_hash,
            timestamp,
            nonce,
        );
        let key = match self.create_signing_key(timestamp) {
            Ok(k) => k,
            Err(e) => {
                return Err(e);
            },
        };
        let signed = match self.sign_data(data.as_str(), key.as_str()) {
            Ok(s) => s,
            Err(e) => {
                return Err(e);
            },
        };
        let value = self.auth_prefix(timestamp, nonce).concat("signature=").concat(
            signed.as_str(),
        );
        assert(value@ == signed_value(auth_prefix(self@, timestamp@, nonce@), signed@));
        Ok(value)
    }

    /// The header value up to the signature.
    fn auth_prefix(&self, timestamp: &str, nonce: &str) -> (r: String)
        ensures
            r@ == auth_prefix(self@, timestamp@, nonce@),
    {
        "EG1-HMAC-SHA256 client_token=".to_string().concat(self.config.client_token.as_str()).concat(
            ";access_token=",
        ).concat(self.config.access_token.as_str()).concat(";timestamp=").concat(timestamp).concat(
            ";nonce=",
        ).concat(nonce).concat(";")
    }

    /// The text that is signed: seven fields joined by tabs.
    pub fn build_data_to_sign(
        &self,
        method: &str,
        scheme: &str,
        host: &str,
        path: &str,
        headers_to_sign: &Vec<(String, String)>,
        content_hash: &str,
        timestamp: &str,
        nonce: &str,
    ) -> (r: String)
        ensures
            r@ == data_to_sign(
                self@,
                method@,
                scheme@,
                host@,
                path@,
                headers_view(headers_to_sign@),
                content_hash@,
                timestamp@,
                nonce@,
            ),
    {
        let headers = self.canonicalize_headers(headers_to_sign);
        let prefix = self.auth_prefix(timestamp, nonce);
        method.to_uppercase().concat("\t").concat(scheme).concat("\t").concat(host).concat(
            "\t",
        ).concat(path).concat("\t").concat(headers.as_str()).concat("\t").concat(
            content_hash,
        ).concat("\t").concat(prefix.as_str())
    }

    /// The canonical form of `headers`: one line for each, `name:value` with
    /// the name in lower case and the value trimmed, in the order of the
    /// lower-case names, joined by tabs.
    pub fn canonicalize_headers(&self, headers: &Vec<(String, String)>) -> (r: String)
        ensures
            r@ == canonical_headers(headers_view(headers@)),
    {
        canonicalize(headers)
    }

    /// The signing key for `timestamp`.
    pub fn create_signing_key(&self, timestamp: &str) -> (r: Result<String, EdgeGridError>)
        ensures
            r is Ok,
            r->Ok_0@ == signing_key(self@.client_secret, timestamp@),
            r->Ok_0@.len() == 44,
    {
        match hmac_sha256_code(self.config.client_secret.as_str().as_bytes(), timestamp.as_bytes()) {
            Ok(code) => Ok(base64_encode(code.as_slice())),
            Err(text) => Err(EdgeGridError::AuthError(text)),
        }
    }

    /// The signature of `data` under `signing_key`, which is given in base64.
    /// A key that is not base64 is refused.
    pub fn sign_data(&self, data: &str, signing_key: &str) -> (r: Result<String, EdgeGridError>)
        ensures
            match r {
                Ok(s) => signature(data@, signing_key@) == Some(s@) && s@.len() == 44,
                Err(e) => signature(data@, signing_key@) is None && e@ is AuthError,
            },
    {
        let key = match base64_decode(signing_key) {
            Ok(bytes) => bytes,
            Err(text) => {
                return Err(EdgeGridError::AuthError(text));
            },
        };
        match hmac_sha256_code(key.as_slice(), data.as_bytes()) {
            Ok(code) => Ok(base64_encode(code.as_slice())),
            Err(text) => Err(EdgeGridError::AuthError(text)),
        }
    }
}

/// The signing key depends on the client secret and the timestamp alone: the
/// same secret and the same timestamp give the same key.
pub proof fn lemma_signing_key_is_determined(
    a: Credentials,
    b: Credentials,
    timestamp_a: Seq<char>,
    timestamp_b: Seq<char>,
)
    requires
        a.client_secret == b.client_secret,
        timestamp_a == timestamp_b,
    ensures
        signing_key(a.client_secret, timestamp_a) == signing_key(b.client_secret, timestamp_b),
{
}

/// Of a body longer than the limit only the first `max_body` bytes are
/// hashed: two bodies of at least `max_body` bytes that agree in their first
/// `max_body` bytes have the same content hash.
pub proof fn lemma_content_hash_reads_the_limit(
    method: Seq<char>,
    a: Seq<u8>,
    b: Seq<u8>,
    max_body: usize,
)
    requires
        a.len() >= max_body,
        b.len() >= max_body,
        a.take(max_body as int) == b.take(max_body as int),
    ensures
        content_hash(method, Some(a), max_body) == content_hash(method, Some(b), max_body),
{
    if a.len() == max_body {
        assert(a.take(max_body as int) =~= a);
    }
    if b.len() == max_body {
        assert(b.take(max_body as int) =~= b);
    }
}

/// A request whose method is not `POST` has the empty content hash, whatever
/// its body; `GET` is such a method.
pub proof fn lemma_content_hash_of_other_methods(
    method: Seq<char>,
    body: Option<Seq<u8>>,
    max_body: usize,
)
    requires
        method != "POST"@,
    ensures
        content_hash(method, body, max_body) == Seq::<char>::empty(),
        content_hash("GET"@, body, max_body) == Seq::<char>::empty(),
{
    reveal_strlit("GET");
    reveal_strlit("POST");
    assert("GET"@.len() != "POST"@.len());
}

/// Two header values made with different nonces are different values,
/// whatever the signatures are: the nonce stands in the value, at the same
/// place for timestamps of one length.
pub proof fn lemma_different_nonces_different_values(
    c: Credentials,
    timestamp_a: Seq<char>,
    nonce_a: Seq<char>,
    signature_a: Seq<char>,
    timestamp_b: Seq<char>,
    nonce_b: Seq<char>,
    signature_b: Seq<char>,
)
    requires
        is_timestamp(timestamp_a),
        is_timestamp(timestamp_b),
        is_nonce(nonce_a),
        is_nonce(nonce_b),
        nonce_a != nonce_b,
    ensures
        auth_prefix(c, timestamp_a, nonce_a) != auth_prefix(c, timestamp_b, nonce_b),
        signed_value(auth_prefix(c, timestamp_a, nonce_a), signature_a) != signed_value(
            auth_prefix(c, timestamp_b, nonce_b),
            signature_b,
        ),
{
    let head_a = "EG1-HMAC-SHA256 client_token="@ + c.client_token + ";access_token="@
        + c.access_token + ";timestamp="@ + timestamp_a + ";nonce="@;
    let head_b = "EG1-HMAC-SHA256 client_token="@ + c.client_token + ";access_token="@
        + c.access_token + ";timestamp="@ + timestamp_b + ";nonce="@;
    assert(head_a.len() == head_b.len());
    if forall|k: int| 0 <= k < 36 ==> nonce_a[k] == nonce_b[k] {
        assert(nonce_a =~= nonce_b);
    }
    let k = choose|k: int| 0 <= k < 36 && nonce_a[k] != nonce_b[k];
    let at = head_a.len() + k;
    let prefix_a = auth_prefix(c, timestamp_a, nonce_a);
    let prefix_b = auth_prefix(c, timestamp_b, nonce_b);
    assert(prefix_a =~= head_a + nonce_a + ";"@);
    assert(prefix_b =~= head_b + nonce_b + ";"@);
    assert(prefix_a[at] == nonce_a[k]);
    assert(prefix_b[at] == nonce_b[k]);
    let value_a = signed_value(prefix_a, signature_a);
    let value_b = signed_value(prefix_b, signature_b);
    assert(value_a[at] == prefix_a[at]);
    assert(value_b[at] == prefix_b[at]);
}

} // verus!
