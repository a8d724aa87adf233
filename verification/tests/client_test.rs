//! Clients: which credential sets they accept, and where their requests go.

use akamai_edgegrid::{EdgeGridClient, EdgeGridConfig, EdgeGridError};

fn config(client_token: &str, client_secret: &str, access_token: &str, host: &str) -> EdgeGridConfig {
    EdgeGridConfig::new(
        client_token.to_string(),
        client_secret.to_string(),
        access_token.to_string(),
        host.to_string(),
    )
}

fn missing(result: Result<EdgeGridClient, EdgeGridError>) -> String {
    match result {
        Err(EdgeGridError::MissingCredential(name)) => name,
        Err(other) => panic!("another error: {:?}", other),
        Ok(_) => panic!("the client was made"),
    }
}

#[test]
fn test_client_creation() {
    let config = EdgeGridConfig::new(
        "test-client-token".to_string(),
        "test-client-secret".to_string(),
        "test-access-token".to_string(),
        "https://test.luna.akamaiapis.net".to_string(),
    );

    let client = EdgeGridClient::new(config);
    assert!(client.is_ok());
}

#[test]
fn an_empty_client_token_is_reported_by_name() {
    assert_eq!(missing(EdgeGridClient::new(config("", "secret", "token", "host"))), "client_token");
}

#[test]
fn an_empty_client_secret_is_reported_by_name() {
    assert_eq!(missing(EdgeGridClient::new(config("client", "", "token", "host"))), "client_secret");
}

#[test]
fn an_empty_access_token_is_reported_by_name() {
    assert_eq!(missing(EdgeGridClient::new(config("client", "secret", "", "host"))), "access_token");
}

#[test]
fn a_blank_token_counts_as_missing() {
    assert_eq!(
        missing(EdgeGridClient::new(config(" \t\n", "secret", "token", "host"))),
        "client_token"
    );
    assert_eq!(
        missing(EdgeGridClient::new(config("client", "\u{a0} ", "token", "host"))),
        "client_secret"
    );
}

#[test]
fn the_first_missing_field_is_the_one_reported() {
    assert_eq!(missing(EdgeGridClient::new(config("", "", "", "host"))), "client_token");
    assert_eq!(missing(EdgeGridClient::new(config("client", "", "", "host"))), "client_secret");
}

#[test]
fn a_blank_host_field_is_reported_by_name() {
    let mut set = config("client", "secret", "token", "host");
    set.host = "  ".to_string();
    assert_eq!(missing(EdgeGridClient::new(set)), "host");
}

#[test]
fn an_empty_host_is_reported_by_name() {
    assert_eq!(missing(EdgeGridClient::new(config("client", "secret", "token", ""))), "host");
    assert_eq!(missing(EdgeGridClient::new(config("client", "secret", "token", " \t"))), "host");
}

#[test]
fn a_host_that_is_no_url_is_refused() {
    let result = EdgeGridClient::new(config("client", "secret", "token", "https://"));
    assert!(matches!(result, Err(EdgeGridError::UrlError(_))));
}

#[test]
fn the_base_url_is_the_host_in_normal_form() {
    let client = EdgeGridClient::new(config("client", "secret", "token", "Test.Example.NET")).unwrap();
    assert_eq!(client.base_url(), "https://test.example.net/");
    assert_eq!(client.auth().config().host, "https://Test.Example.NET");
}

#[test]
fn a_path_is_resolved_against_the_base_url() {
    let client = EdgeGridClient::new(config("client", "secret", "token", "example.net")).unwrap();
    assert_eq!(client.request_url("/papi/v1/properties"), "https://example.net/papi/v1/properties");
    assert_eq!(client.request_url("a/b?x=1"), "https://example.net/a/b?x=1");
    assert_eq!(client.request_url(""), "https://example.net/");
}

#[test]
fn an_absolute_url_replaces_the_base() {
    let client = EdgeGridClient::new(config("client", "secret", "token", "example.net")).unwrap();
    assert_eq!(client.request_url("http://other.example/x"), "http://other.example/x");
}

#[test]
fn a_reference_that_cannot_be_resolved_is_written_behind_the_base() {
    let client = EdgeGridClient::new(config("client", "secret", "token", "example.net")).unwrap();
    let reference = "http://[::1";
    let base = url::Url::parse("https://example.net/").unwrap();
    assert!(base.join(reference).is_err());
    let written = url::Url::parse("https://example.net/http://[::1").unwrap();
    assert_eq!(client.request_url(reference), written.as_str());
    assert!(client.request_url(reference).starts_with("https://example.net/http:"));
}

#[test]
fn a_client_is_made_from_credentials_text() {
    let content = "[default]\nclient_secret = s\nhost = h.example\naccess_token = a\nclient_token = c\n";
    let client = EdgeGridClient::from_edgerc(content, "default").unwrap();
    assert_eq!(client.base_url(), "https://h.example/");
    assert_eq!(client.auth().config().client_token, "c");
    let absent = EdgeGridClient::from_edgerc(content, "other");
    assert!(matches!(absent, Err(EdgeGridError::InvalidSection(name)) if name == "other"));
}

#[test]
fn a_copy_of_a_client_has_its_base_url_and_credentials() {
    let client = EdgeGridClient::new(config("client", "secret", "token", "example.net")).unwrap();
    let copy = client.clone();
    assert_eq!(copy.base_url(), client.base_url());
    assert_eq!(copy.auth().config().client_secret, "secret");
}
