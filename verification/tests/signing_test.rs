//! Whole requests: what is attached to them, and when signing is refused.

use akamai_edgegrid::{EdgeGridAuth, EdgeGridConfig, EdgeGridError, RequestDescriptor};

const STAMP: &str = "20140321T19:34:21+0000";

fn auth() -> EdgeGridAuth {
    EdgeGridAuth::new(EdgeGridConfig::new(
        "ct".to_string(),
        "cs".to_string(),
        "at".to_string(),
        "https://h".to_string(),
    ))
}

fn field<'a>(value: &'a str, name: &str) -> &'a str {
    let start = value.find(name).unwrap() + name.len();
    let rest = &value[start..];
    match rest.find(';') {
        Some(end) => &rest[..end],
        None => rest,
    }
}

fn has_the_wire_form(value: &str) -> bool {
    let prefix = "EG1-HMAC-SHA256 client_token=ct;access_token=at;timestamp=";
    if !value.starts_with(prefix) {
        return false;
    }
    let rest = &value[prefix.len()..];
    let stamp: Vec<char> = rest.chars().take(22).collect();
    if stamp.len() != 22 {
        return false;
    }
    for (i, c) in stamp.iter().enumerate() {
        let fits = match i {
            8 => *c == 'T',
            11 | 14 => *c == ':',
            17 => *c == '+',
            18..=21 => *c == '0',
            _ => c.is_ascii_digit(),
        };
        if !fits {
            return false;
        }
    }
    let rest = &rest[22..];
    if !rest.starts_with(";nonce=") {
        return false;
    }
    let rest = &rest[7..];
    let nonce: Vec<char> = rest.chars().take(36).collect();
    if nonce.len() != 36 || !nonce.iter().all(|c| c.is_ascii_digit() || ('a'..='f').contains(c) || *c == '-') {
        return false;
    }
    let rest = &rest[36..];
    rest.starts_with(";signature=") && rest.len() > ";signature=".len() && !rest.contains('\n')
}

#[test]
fn a_get_is_signed_with_a_header_of_the_wire_form() {
    let mut request = RequestDescriptor::new("GET", "https", "h", "/path", "a=1");
    auth().sign_request(&mut request).unwrap();
    let value = request.header("Authorization").unwrap();
    assert!(has_the_wire_form(value), "{}", value);
    assert_eq!(request.headers.len(), 1);
    assert_eq!(request.headers[0].0, "Authorization");
}

#[test]
fn two_signatures_of_one_request_differ() {
    let mut first = RequestDescriptor::new("GET", "https", "h", "/path", "a=1");
    let mut second = RequestDescriptor::new("GET", "https", "h", "/path", "a=1");
    auth().sign_request(&mut first).unwrap();
    auth().sign_request(&mut second).unwrap();
    let a = first.header("authorization").unwrap();
    let b = second.header("authorization").unwrap();
    assert_ne!(field(a, "nonce="), field(b, "nonce="));
    assert_ne!(field(a, "signature="), field(b, "signature="));
    assert_ne!(a, b);
}

#[test]
fn a_request_is_signed_at_a_given_timestamp_with_a_given_nonce() {
    let mut request = RequestDescriptor::new("GET", "https", "h", "/path", "a=1");
    auth().sign_request_with(&mut request, STAMP, "nonce-xx").unwrap();
    assert_eq!(
        request.header("Authorization").unwrap(),
        "EG1-HMAC-SHA256 client_token=ct;access_token=at;timestamp=20140321T19:34:21+0000;nonce=nonce-xx;signature=uSV+IvrTuczGI5DZFnCjxqOQn67K45OBjZ8j6V8tMCY="
    );
}

#[test]
fn a_post_with_a_body_has_a_content_hash_in_the_text_to_sign() {
    let auth = auth();
    let mut post = RequestDescriptor::new("POST", "https", "h", "/test", "");
    post.body = Some(b"{\"key\":\"value\"}".to_vec());
    let mut get = RequestDescriptor::new("GET", "https", "h", "/test", "");
    get.body = Some(b"{\"key\":\"value\"}".to_vec());
    let post_hash = auth.calculate_content_hash(&post).unwrap();
    let get_hash = auth.calculate_content_hash(&get).unwrap();
    assert!(!post_hash.is_empty());
    assert!(get_hash.is_empty());
    let text = auth.build_data_to_sign(
        "POST", "https", "h", "/test", &Vec::new(), &post_hash, STAMP, "nonce-xx",
    );
    let fields: Vec<&str> = text.split('\t').collect();
    assert_eq!(fields.len(), 7);
    assert_eq!(fields[5], "5Dq88zdSRIOcAS+WM/lYYtIyqVsA1bxzSLMJi5/tfzI=");
    let text = auth.build_data_to_sign(
        "GET", "https", "h", "/test", &Vec::new(), &get_hash, STAMP, "nonce-xx",
    );
    assert_eq!(text.split('\t').collect::<Vec<&str>>()[5], "");
}

#[test]
fn designated_headers_and_the_body_take_part_in_the_signature() {
    let mut request = RequestDescriptor::new("POST", "https", "h", "/test", "");
    request.body = Some(b"{\"key\":\"value\"}".to_vec());
    request.headers.push(("X-Test".to_string(), "value1".to_string()));
    request.headers.push(("Accept".to_string(), "*/*".to_string()));
    request.headers.push(("x-another".to_string(), " value2 ".to_string()));
    request.headers_to_sign.push("x-test".to_string());
    request.headers_to_sign.push("X-ANOTHER".to_string());
    request.headers_to_sign.push("X-Absent".to_string());
    let chosen = auth().get_headers_to_sign(&request);
    assert_eq!(
        chosen,
        vec![
            ("X-Test".to_string(), "value1".to_string()),
            ("x-another".to_string(), " value2 ".to_string())
        ]
    );
    auth().sign_request_with(&mut request, STAMP, "nonce-xx").unwrap();
    assert_eq!(
        request.header("Authorization").unwrap(),
        "EG1-HMAC-SHA256 client_token=ct;access_token=at;timestamp=20140321T19:34:21+0000;nonce=nonce-xx;signature=r8+M+e9MFPiRYhZKnaI/B02zLasToLlPEPkf7J0CmVc="
    );
    assert_eq!(request.headers.len(), 4);
}

#[test]
fn no_header_is_signed_unless_it_is_designated() {
    let mut request = RequestDescriptor::new("GET", "https", "h", "/path", "a=1");
    request.headers.push(("X-Test".to_string(), "value1".to_string()));
    assert!(auth().get_headers_to_sign(&request).is_empty());
    auth().sign_request_with(&mut request, STAMP, "nonce-xx").unwrap();
    assert!(request
        .header("Authorization")
        .unwrap()
        .ends_with("signature=uSV+IvrTuczGI5DZFnCjxqOQn67K45OBjZ8j6V8tMCY="));
}

#[test]
fn an_authorization_header_that_was_there_is_replaced() {
    let mut request = RequestDescriptor::new("GET", "https", "h", "/path", "a=1");
    request.headers.push(("authorization".to_string(), "Basic old".to_string()));
    request.headers.push(("Accept".to_string(), "*/*".to_string()));
    request.headers.push(("AUTHORIZATION".to_string(), "Basic older".to_string()));
    auth().sign_request_with(&mut request, STAMP, "nonce-xx").unwrap();
    assert_eq!(request.headers.len(), 2);
    assert_eq!(request.headers[0].0, "Accept");
    assert_eq!(request.headers[1].0, "Authorization");
    assert!(request.headers[1].1.starts_with("EG1-HMAC-SHA256 "));
    assert!(request.header("Content-Type").is_none());
}

#[test]
fn a_value_that_cannot_stand_in_a_header_is_refused_and_nothing_is_attached() {
    let auth = EdgeGridAuth::new(EdgeGridConfig::new(
        "c\nt".to_string(),
        "cs".to_string(),
        "at".to_string(),
        "h".to_string(),
    ));
    let mut request = RequestDescriptor::new("GET", "https", "h", "/path", "");
    request.headers.push(("Accept".to_string(), "*/*".to_string()));
    match auth.sign_request_with(&mut request, STAMP, "nonce-xx") {
        Err(EdgeGridError::AuthError(text)) => {
            assert_eq!(text, "The authorization value cannot stand in a header")
        }
        other => panic!("unexpected: {:?}", other),
    }
    assert_eq!(request.headers.len(), 1);
    assert!(request.header("Authorization").is_none());
    assert!(matches!(auth.sign_request(&mut request), Err(EdgeGridError::AuthError(_))));
    assert_eq!(request.headers.len(), 1);
}

#[test]
fn a_tab_and_a_letter_beyond_ascii_may_stand_in_the_header() {
    let auth = EdgeGridAuth::new(EdgeGridConfig::new(
        "c\tt\u{e9}".to_string(),
        "cs".to_string(),
        "at".to_string(),
        "h".to_string(),
    ));
    let mut request = RequestDescriptor::new("GET", "https", "h", "/path", "");
    assert!(auth.sign_request_with(&mut request, STAMP, "n").is_ok());
    let mut request = RequestDescriptor::new("GET", "https", "h", "/path", "");
    assert!(matches!(
        auth.sign_request_with(&mut request, STAMP, "n\u{7f}"),
        Err(EdgeGridError::AuthError(_))
    ));
}

#[test]
fn the_path_is_signed_with_its_query() {
    let with = RequestDescriptor::new("GET", "https", "h", "/path", "a=1&b=%20");
    assert_eq!(with.full_path(), "/path?a=1&b=%20");
    let without = RequestDescriptor::new("GET", "https", "h", "/path", "");
    assert_eq!(without.full_path(), "/path");
}

#[test]
fn a_signer_is_made_from_credentials_text() {
    let content = "[default]\nclient_secret = cs\nhost = h\naccess_token = at\nclient_token = ct\n";
    let auth = EdgeGridAuth::from_edgerc(content, "default").unwrap();
    assert_eq!(auth.config().client_token, "ct");
    assert_eq!(auth.config().host, "https://h");
    let copy = auth.clone();
    let mut request = RequestDescriptor::new("GET", "https", "h", "/path", "a=1");
    copy.sign_request_with(&mut request, STAMP, "nonce-xx").unwrap();
    assert!(request
        .header("Authorization")
        .unwrap()
        .ends_with("signature=uSV+IvrTuczGI5DZFnCjxqOQn67K45OBjZ8j6V8tMCY="));
    assert!(matches!(
        EdgeGridAuth::from_edgerc(content, "absent"),
        Err(EdgeGridError::InvalidSection(_))
    ));
}
