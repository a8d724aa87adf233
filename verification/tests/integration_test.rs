//! The credential checks of a client, and the reading of credentials text.

use akamai_edgegrid::{EdgeGridClient, EdgeGridConfig};

#[test]
fn integration_test_test_config_validation() {
    let config = EdgeGridConfig::new(
        "".to_string(),
        "secret".to_string(),
        "token".to_string(),
        "host".to_string(),
    );

    let result = EdgeGridClient::new(config);
    assert!(result.is_err());
}

#[test]
fn integration_test_test_edgerc_parsing() {
    let mut content = String::new();
    content.push_str("[default]\n");
    content.push_str("client_secret = test-secret\n");
    content.push_str("host = test.luna.akamaiapis.net\n");
    content.push_str("access_token = test-access\n");
    content.push_str("client_token = test-client\n");

    let config = EdgeGridConfig::from_edgerc(&content, "default").unwrap();
    assert_eq!(config.client_token, "test-client");
    assert_eq!(config.client_secret, "test-secret");
    assert_eq!(config.access_token, "test-access");
    assert_eq!(config.host, "https://test.luna.akamaiapis.net");
}
