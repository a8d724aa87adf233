//! The signing engine: canonical headers, content hash, keys, signatures, headers.

use akamai_edgegrid::context::{create_nonce, create_timestamp, has_timestamp_form, timestamp_at};
use akamai_edgegrid::{EdgeGridAuth, EdgeGridConfig, EdgeGridError, RequestDescriptor};

const STAMP: &str = "20140321T19:34:21+0000";

fn auth() -> EdgeGridAuth {
    EdgeGridAuth::new(EdgeGridConfig::new(
        "ct".to_string(),
        "cs".to_string(),
        "at".to_string(),
        "https://h".to_string(),
    ))
}

fn pairs(all: &[(&str, &str)]) -> Vec<(String, String)> {
    all.iter().map(|(n, v)| (n.to_string(), v.to_string())).collect()
}

#[test]
fn test_create_timestamp() {
    let timestamp = create_timestamp().unwrap();
    assert_eq!(timestamp.len(), 22);
    assert!(timestamp.contains('T'));
    assert!(timestamp.ends_with("+0000"));

    let parts: Vec<&str> = timestamp.split('T').collect();
    assert_eq!(parts.len(), 2);
    assert_eq!(parts[0].len(), 8);
    assert_eq!(parts[1].len(), 13);
}

#[test]
fn test_canonicalize_headers() {
    let config = EdgeGridConfig::new(
        "test".to_string(),
        "test".to_string(),
        "test".to_string(),
        "test.com".to_string(),
    );
    let auth = EdgeGridAuth::new(config);

    let mut headers = Vec::new();
    headers.push(("X-Test".to_string(), "value1".to_string()));
    headers.push(("X-Another".to_string(), "value2".to_string()));

    let result = auth.canonicalize_headers(&headers);
    assert_eq!(result, "x-another:value2\tx-test:value1");
}

#[test]
fn canonical_headers_do_not_depend_on_the_order_given() {
    let a = pairs(&[("X-B", " 2 "), ("x-a", "1"), ("X-C", "3\t")]);
    let b = pairs(&[("X-C", "3\t"), ("X-B", " 2 "), ("x-a", "1")]);
    let c = pairs(&[("x-a", "1"), ("X-C", "3\t"), ("X-B", " 2 ")]);
    let auth = auth();
    let expected = "x-a:1\tx-b:2\tx-c:3";
    assert_eq!(auth.canonicalize_headers(&a), expected);
    assert_eq!(auth.canonicalize_headers(&b), expected);
    assert_eq!(auth.canonicalize_headers(&c), expected);
}

#[test]
fn canonical_headers_of_nothing_and_of_one() {
    let auth = auth();
    assert_eq!(auth.canonicalize_headers(&Vec::new()), "");
    assert_eq!(auth.canonicalize_headers(&pairs(&[("Accept", " */* ")])), "accept:*/*");
}

#[test]
fn headers_of_one_name_keep_their_order_and_a_prefix_comes_first() {
    let auth = auth();
    let given = pairs(&[("x-ab", "3"), ("X-A", "1"), ("x-a", "2"), ("x", "0")]);
    assert_eq!(auth.canonicalize_headers(&given), "x:0\tx-a:1\tx-a:2\tx-ab:3");
}

#[test]
fn a_timestamp_is_written_for_a_given_instant() {
    assert_eq!(timestamp_at(1395430461).unwrap(), STAMP);
    assert_eq!(timestamp_at(0).unwrap(), "19700101T00:00:00+0000");
    assert_eq!(timestamp_at(253402300799).unwrap(), "99991231T23:59:59+0000");
    assert_eq!(timestamp_at(-1).unwrap(), "19691231T23:59:59+0000");
}

#[test]
fn an_instant_whose_year_has_five_digits_has_no_timestamp() {
    for seconds in [253402300800, i64::MAX, i64::MIN, -62167219201] {
        match timestamp_at(seconds) {
            Err(EdgeGridError::AuthError(text)) => {
                assert_eq!(text, "The clock shows no time that a timestamp can write")
            }
            other => panic!("unexpected: {:?}", other),
        }
    }
}

#[test]
fn the_form_of_a_timestamp_is_checked_place_by_place() {
    assert!(has_timestamp_form(STAMP));
    assert!(!has_timestamp_form(""));
    assert!(!has_timestamp_form("20140321T19:34:21+0001"));
    assert!(!has_timestamp_form("20140321 19:34:21+0000"));
    assert!(!has_timestamp_form("20140321T19-34:21+0000"));
    assert!(!has_timestamp_form("2014032aT19:34:21+0000"));
    assert!(!has_timestamp_form("+10000321T19:34:21+0000"));
    assert!(!has_timestamp_form("20140321T19:34:21+00000"));
}

#[test]
fn a_nonce_is_a_hyphenated_uuid_and_differs_each_time() {
    let a = create_nonce();
    let b = create_nonce();
    assert_ne!(a, b);
    for nonce in [a, b] {
        assert_eq!(nonce.len(), 36);
        assert_eq!(nonce.chars().nth(14), Some('4'));
        assert!("89ab".contains(nonce.chars().nth(19).unwrap()));
        for (i, c) in nonce.chars().enumerate() {
            if i == 8 || i == 13 || i == 18 || i == 23 {
                assert_eq!(c, '-');
            } else {
                assert!(c.is_ascii_digit() || ('a'..='f').contains(&c), "{}", nonce);
            }
        }
    }
}

#[test]
fn the_signing_key_is_the_same_for_the_same_secret_and_timestamp() {
    let key = auth().create_signing_key(STAMP).unwrap();
    assert_eq!(key, "3ge8o0yjx8+dj2ZEUpi2m5HnJjgFZ+aSjkdWRoh8h1Q=");
    assert_eq!(auth().create_signing_key(STAMP).unwrap(), key);
    assert_ne!(auth().create_signing_key("20140321T19:34:22+0000").unwrap(), key);
}

#[test]
fn data_is_signed_under_the_bytes_of_the_key() {
    assert_eq!(
        auth().sign_data("data", "a2V5").unwrap(),
        "UDH+PZicbRU3oBP6bnOdojRj/a7DtwE32Cjjas4iG9A="
    );
}

#[test]
fn a_key_that_is_not_base64_is_refused() {
    for key in ["not base64!", "a2V5=", "a2V", "a2V5\n"] {
        assert!(matches!(auth().sign_data("data", key), Err(EdgeGridError::AuthError(_))), "{}", key);
    }
}

#[test]
fn the_text_to_sign_has_seven_fields() {
    let data = auth().build_data_to_sign(
        "get",
        "https",
        "h",
        "/path?a=1",
        &Vec::new(),
        "",
        STAMP,
        "nonce-xx",
    );
    assert_eq!(
        data,
        "GET\thttps\th\t/path?a=1\t\t\tEG1-HMAC-SHA256 client_token=ct;access_token=at;timestamp=20140321T19:34:21+0000;nonce=nonce-xx;"
    );
    assert_eq!(data.split('\t').count(), 7);
}

#[test]
fn the_header_value_ends_with_the_signature() {
    let value = auth()
        .create_auth_header("GET", "https", "h", "/path?a=1", &Vec::new(), "", STAMP, "nonce-xx")
        .unwrap();
    assert_eq!(
        value,
        "EG1-HMAC-SHA256 client_token=ct;access_token=at;timestamp=20140321T19:34:21+0000;nonce=nonce-xx;signature=uSV+IvrTuczGI5DZFnCjxqOQn67K45OBjZ8j6V8tMCY="
    );
}

#[test]
fn a_get_has_the_empty_content_hash_whatever_its_body() {
    let mut request = RequestDescriptor::new("GET", "https", "h", "/path", "a=1");
    assert_eq!(auth().calculate_content_hash(&request).unwrap(), "");
    request.body = Some(b"{\"key\":\"value\"}".to_vec());
    assert_eq!(auth().calculate_content_hash(&request).unwrap(), "");
    for method in ["PUT", "PATCH", "DELETE", "post", "Post", ""] {
        request.method = method.to_string();
        assert_eq!(auth().calculate_content_hash(&request).unwrap(), "", "{}", method);
    }
}

#[test]
fn a_post_has_the_hash_of_its_body() {
    let mut request = RequestDescriptor::new("POST", "https", "h", "/test", "");
    assert_eq!(auth().calculate_content_hash(&request).unwrap(), "");
    request.body = Some(b"{\"key\":\"value\"}".to_vec());
    assert_eq!(
        auth().calculate_content_hash(&request).unwrap(),
        "5Dq88zdSRIOcAS+WM/lYYtIyqVsA1bxzSLMJi5/tfzI="
    );
    request.body = Some(Vec::new());
    assert_eq!(
        auth().calculate_content_hash(&request).unwrap(),
        "47DEQpj8HBSa+/TImW+5JCeuQeRkm5NMpJWZG3hSuFU="
    );
}

#[test]
fn a_body_longer_than_the_limit_is_hashed_up_to_the_limit() {
    let mut config = EdgeGridConfig::new("ct".into(), "cs".into(), "at".into(), "h".into());
    config.max_body = 4;
    let auth = EdgeGridAuth::new(config);
    let mut request = RequestDescriptor::new("POST", "https", "h", "/test", "");
    assert!(!auth.signs_part_of_body(&request));
    request.body = Some(b"hell".to_vec());
    assert!(!auth.signs_part_of_body(&request));
    let exact = auth.calculate_content_hash(&request).unwrap();
    request.body = Some(b"hello".to_vec());
    assert!(auth.signs_part_of_body(&request));
    request.method = "GET".to_string();
    assert!(!auth.signs_part_of_body(&request));
    request.method = "POST".to_string();
    let longer = auth.calculate_content_hash(&request).unwrap();
    request.body = Some(b"hellxyz".to_vec());
    let other = auth.calculate_content_hash(&request).unwrap();
    assert_eq!(exact, "Dr3DMXt1g59kM4fXg1Na3DYMoB8zx198HnNzrc1nXAs=");
    assert_eq!(longer, exact);
    assert_eq!(other, exact);
    request.body = Some(b"hel".to_vec());
    assert_ne!(auth.calculate_content_hash(&request).unwrap(), exact);
}

#[test]
fn the_body_limit_of_zero_hashes_nothing_of_the_body() {
    let mut config = EdgeGridConfig::new("ct".into(), "cs".into(), "at".into(), "h".into());
    config.max_body = 0;
    let auth = EdgeGridAuth::new(config);
    let mut request = RequestDescriptor::new("POST", "https", "h", "/test", "");
    request.body = Some(b"hello".to_vec());
    assert_eq!(
        auth.calculate_content_hash(&request).unwrap(),
        "47DEQpj8HBSa+/TImW+5JCeuQeRkm5NMpJWZG3hSuFU="
    );
}
