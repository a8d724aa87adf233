//! Credential sets: literal values, credentials text, environment values.

use akamai_edgegrid::config::{default_max_body, env_names, env_prefix};
use akamai_edgegrid::edgerc::{parse_edgerc, parse_section_config, parse_value};
use akamai_edgegrid::table::TextMap;
use akamai_edgegrid::{EdgeGridConfig, EdgeGridError, MAX_BODY};

#[test]
fn test_parse_edgerc() {
    let content = r#"
[default]
client_secret = abcdefghijklmnopqrstuvwxyz1234567890ABCDEFG=
host = akab-XXXXXXXXXXXXXXXX-XXXXXXXXXXXXXXXX.luna.akamaiapis.net
access_token = akab-XXXXXXXXXXXXXXXX-XXXXXXXXXXXXXXXX
client_token = akab-XXXXXXXXXXXXXXXX-XXXXXXXXXXXXXXXX

[section1]
client_secret = secret1
host = host1.akamaiapis.net
access_token = token1
client_token = client1
max_body = 2048
"#;

    let sections = parse_edgerc(content).unwrap();
    assert_eq!(sections.len(), 2);

    let default = sections.get("default").unwrap();
    assert_eq!(default.client_token, "akab-XXXXXXXXXXXXXXXX-XXXXXXXXXXXXXXXX");
    assert_eq!(default.max_body, MAX_BODY);

    let section1 = sections.get("section1").unwrap();
    assert_eq!(section1.client_token, "client1");
    assert_eq!(section1.max_body, 2048);
}

#[test]
fn test_parse_value() {
    assert_eq!(parse_value("simple"), "simple");
    assert_eq!(parse_value("\"quoted\""), "quoted");
    assert_eq!(parse_value("'single quoted'"), "single quoted");
    assert_eq!(parse_value("value ; comment"), "value");
    assert_eq!(parse_value("  spaced  "), "spaced");
}

#[test]
fn a_value_keeps_a_lone_quote_and_mismatched_quotes() {
    assert_eq!(parse_value("\""), "\"");
    assert_eq!(parse_value("'"), "'");
    assert_eq!(parse_value("\"a'"), "\"a'");
    assert_eq!(parse_value("\"\""), "");
    assert_eq!(parse_value(""), "");
}

#[test]
fn a_comment_inside_quotes_still_cuts_the_value() {
    assert_eq!(parse_value("\"a ; b\""), "a");
    assert_eq!(parse_value("; only a comment"), "");
    assert_eq!(parse_value("\" inner \""), " inner ");
}

#[test]
fn the_default_body_limit_is_128_kib() {
    assert_eq!(MAX_BODY, 131072);
    assert_eq!(default_max_body(), 131072);
}

#[test]
fn new_gives_the_host_a_scheme_once() {
    let plain = EdgeGridConfig::new("c".into(), "s".into(), "a".into(), "h.example".into());
    assert_eq!(plain.host, "https://h.example");
    let given = EdgeGridConfig::new("c".into(), "s".into(), "a".into(), "https://h.example".into());
    assert_eq!(given.host, "https://h.example");
    let other = EdgeGridConfig::new("c".into(), "s".into(), "a".into(), "http://h.example".into());
    assert_eq!(other.host, "https://http://h.example");
    assert_eq!(plain.max_body, MAX_BODY);
    assert!(!plain.debug);
    assert!(plain.account_switch_key.is_none());
}

#[test]
fn validation_reports_the_first_blank_field() {
    let mut config = EdgeGridConfig::new("c".into(), " ".into(), "".into(), "h".into());
    match EdgeGridConfig::validate_config(config.clone()) {
        Err(EdgeGridError::MissingCredential(name)) => assert_eq!(name, "client_secret"),
        other => panic!("unexpected: {:?}", other),
    }
    config.client_secret = "s".into();
    match EdgeGridConfig::validate_config(config.clone()) {
        Err(EdgeGridError::MissingCredential(name)) => assert_eq!(name, "access_token"),
        other => panic!("unexpected: {:?}", other),
    }
    config.access_token = "a".into();
    config.host = "\t".into();
    match EdgeGridConfig::validate_config(config) {
        Err(EdgeGridError::MissingCredential(name)) => assert_eq!(name, "host"),
        other => panic!("unexpected: {:?}", other),
    }
}

#[test]
fn validation_puts_the_host_in_normal_form() {
    let mut config = EdgeGridConfig::new("c".into(), "s".into(), "a".into(), "x".into());
    config.host = "h.example/".into();
    let valid = EdgeGridConfig::validate_config(config.clone()).unwrap();
    assert_eq!(valid.host, "https://h.example");
    config.host = "https://h.example//".into();
    let valid = EdgeGridConfig::validate_config(config).unwrap();
    assert_eq!(valid.host, "https://h.example/");
    assert_eq!(valid.client_token, "c");
}

#[test]
fn a_section_needs_all_four_fields() {
    let mut values: TextMap<String> = TextMap::new();
    values.insert("client_token".into(), "c".into());
    values.insert("client_secret".into(), "s".into());
    values.insert("host".into(), "h".into());
    match parse_section_config(&values) {
        Err(EdgeGridError::MissingCredential(name)) => assert_eq!(name, "access_token"),
        other => panic!("unexpected: {:?}", other),
    }
    values.insert("access_token".into(), "a".into());
    values.insert("account_switch_key".into(), "K-1".into());
    values.insert("max_body".into(), "+0042".into());
    let config = parse_section_config(&values).unwrap();
    assert_eq!(config.host, "https://h");
    assert_eq!(config.max_body, 42);
    assert_eq!(config.account_switch_key.as_deref(), Some("K-1"));
}

#[test]
fn a_body_limit_that_is_no_number_counts_as_not_given() {
    for text in ["", "+", "-1", "12a", " 12", "1_000", "99999999999999999999999999"] {
        let mut values: TextMap<String> = TextMap::new();
        values.insert("client_token".into(), "c".into());
        values.insert("client_secret".into(), "s".into());
        values.insert("access_token".into(), "a".into());
        values.insert("host".into(), "h".into());
        values.insert("max_body".into(), text.to_string());
        assert_eq!(parse_section_config(&values).unwrap().max_body, MAX_BODY, "{:?}", text);
    }
}

#[test]
fn max_body_with_a_hyphen_is_read_too() {
    let content = "[a]\nclient_token=c\nclient_secret=s\naccess_token=t\nhost=h\nmax-body = 77\n";
    let sections = parse_edgerc(content).unwrap();
    assert_eq!(sections.get("a").unwrap().max_body, 77);
}

#[test]
fn a_text_without_a_complete_section_is_refused() {
    for content in ["", "client_token = c\n", "[a]\nclient_token = c\n", "# nothing\n; here\n"] {
        match parse_edgerc(content) {
            Err(EdgeGridError::Config(text)) => {
                assert_eq!(text, "No valid sections found in .edgerc")
            }
            other => panic!("unexpected: {:?}", other.map(|s| s.len())),
        }
    }
}

#[test]
fn a_later_setting_and_a_later_section_replace_the_earlier() {
    let content = "[a]\nclient_token=c1\nclient_token=c2\nclient_secret=s\naccess_token=t\nhost=h\n\
                   [a]\nclient_token=c3\nclient_secret=s\naccess_token=t\nhost=h\n\
                   [a]\nclient_token=c4\n";
    let sections = parse_edgerc(content).unwrap();
    assert_eq!(sections.len(), 1);
    assert_eq!(sections.get("a").unwrap().client_token, "c3");
    assert!(sections.get("b").is_none());
}

#[test]
fn lines_may_end_with_carriage_returns_and_hold_comments() {
    let content = "  [ s ]  \r\n# note\r\nclient_token = c\r\nclient_secret= s=1 \r\naccess_token =\"t\"\r\nhost = h; x\r\nno equals sign\r\n";
    let sections = parse_edgerc(content).unwrap();
    let config = sections.get(" s ").unwrap();
    assert_eq!(config.client_token, "c");
    assert_eq!(config.client_secret, "s=1");
    assert_eq!(config.access_token, "t");
    assert_eq!(config.host, "https://h");
}

#[test]
fn a_section_that_is_absent_is_reported_by_name() {
    let content = "[a]\nclient_token=c\nclient_secret=s\naccess_token=t\nhost=h\n";
    match EdgeGridConfig::from_edgerc(content, "b") {
        Err(EdgeGridError::InvalidSection(name)) => assert_eq!(name, "b"),
        other => panic!("unexpected: {:?}", other),
    }
    assert!(matches!(EdgeGridConfig::from_edgerc("", "a"), Err(EdgeGridError::Config(_))));
}

#[test]
fn a_section_written_from_a_config_is_read_back() {
    let config = EdgeGridConfig::new("ct-1".into(), "cs+/=".into(), "at-1".into(), "h.example".into());
    let content = format!(
        "[prod]\nclient_token = {}\nclient_secret = {}\naccess_token = {}\nhost = {}\n",
        config.client_token, config.client_secret, config.access_token, config.host
    );
    let back = EdgeGridConfig::from_edgerc(&content, "prod").unwrap();
    assert_eq!(back.client_token, config.client_token);
    assert_eq!(back.client_secret, config.client_secret);
    assert_eq!(back.access_token, config.access_token);
    assert_eq!(back.host, config.host);
}

#[test]
fn the_environment_prefix_follows_the_section() {
    assert_eq!(env_prefix("default"), "AKAMAI_");
    assert_eq!(env_prefix("staging"), "AKAMAI_STAGING_");
    assert_eq!(
        env_names("ccu"),
        vec!["AKAMAI_CCU_HOST", "AKAMAI_CCU_CLIENT_TOKEN", "AKAMAI_CCU_CLIENT_SECRET", "AKAMAI_CCU_ACCESS_TOKEN"]
    );
}

#[test]
fn the_first_variable_that_is_not_set_is_reported() {
    let s = |t: &str| Some(t.to_string());
    let all = EdgeGridConfig::from_env("default", s("h"), s("c"), s("s"), s("a")).unwrap();
    assert_eq!(all.host, "https://h");
    assert_eq!(all.client_token, "c");
    assert_eq!(all.client_secret, "s");
    assert_eq!(all.access_token, "a");
    let cases: [(Option<String>, Option<String>, Option<String>, Option<String>, &str); 4] = [
        (None, None, s("s"), s("a"), "AKAMAI_P_HOST not set"),
        (s("h"), None, None, s("a"), "AKAMAI_P_CLIENT_TOKEN not set"),
        (s("h"), s("c"), None, None, "AKAMAI_P_CLIENT_SECRET not set"),
        (s("h"), s("c"), s("s"), None, "AKAMAI_P_ACCESS_TOKEN not set"),
    ];
    for (h, c, sec, a, text) in cases {
        match EdgeGridConfig::from_env("p", h, c, sec, a) {
            Err(EdgeGridError::EnvError(t)) => assert_eq!(t, text),
            other => panic!("unexpected: {:?}", other),
        }
    }
}

#[test]
fn errors_have_messages() {
    assert_eq!(EdgeGridError::Config("x".into()).message(), "Configuration error: x");
    assert_eq!(
        EdgeGridError::MissingCredential("host".into()).message(),
        "Missing credential: host"
    );
    assert_eq!(EdgeGridError::AuthError("x".into()).message(), "Authentication error: x");
    assert_eq!(
        EdgeGridError::InvalidSection("s".into()).message(),
        "Invalid section 's' in .edgerc file"
    );
    assert_eq!(EdgeGridError::EnvError("x".into()).message(), "Environment variable error: x");
}

#[test]
fn a_failed_response_is_reported_with_its_status_and_text() {
    let error = EdgeGridError::http_failure(404, "no such thing");
    assert_eq!(error.message(), "HTTP 404: no such thing");
    match error {
        EdgeGridError::HttpStatus(status, body) => {
            assert_eq!(status, 404);
            assert_eq!(body, "no such thing");
        }
        other => panic!("unexpected: {:?}", other),
    }
    assert_eq!(EdgeGridError::http_failure(0, "").message(), "HTTP 0: ");
    assert_eq!(EdgeGridError::http_failure(65535, "x").message(), "HTTP 65535: x");
    assert_eq!(EdgeGridError::http_failure(500, "x").message(), "HTTP 500: x");
}

#[test]
fn white_space_is_what_the_standard_library_calls_white_space() {
    for code in 0..=0x10ffffu32 {
        if let Some(c) = char::from_u32(code) {
            assert_eq!(akamai_edgegrid::text::white_space(c), c.is_whitespace(), "U+{:04X}", code);
        }
    }
}

#[test]
fn validation_trims_the_four_fields() {
    let mut config = EdgeGridConfig::new("x".into(), "x".into(), "x".into(), "x".into());
    config.client_token = " ct ".into();
    config.client_secret = "cs\t".into();
    config.access_token = "\nat".into();
    config.host = " h.example/ ".into();
    let valid = EdgeGridConfig::validate_config(config).unwrap();
    assert_eq!(valid.client_token, "ct");
    assert_eq!(valid.client_secret, "cs");
    assert_eq!(valid.access_token, "at");
    assert_eq!(valid.host, "https://h.example");
}

#[test]
fn a_host_is_trimmed_once_more_when_its_slash_is_gone() {
    let mut config = EdgeGridConfig::new("c".into(), "s".into(), "a".into(), "x".into());
    config.host = "a /".into();
    assert_eq!(EdgeGridConfig::validate_config(config).unwrap().host, "https://a");
}

#[test]
fn a_quoted_value_with_spaces_inside_is_trimmed_in_the_credential_set() {
    let content = "[a]\nclient_token = \" c \"\nclient_secret = s\naccess_token = t\nhost = h\n";
    let config = EdgeGridConfig::from_edgerc(content, "a").unwrap();
    assert_eq!(config.client_token, "c");
}

#[test]
fn a_blank_host_gets_no_scheme() {
    assert_eq!(EdgeGridConfig::new("c".into(), "s".into(), "a".into(), "".into()).host, "");
    assert_eq!(EdgeGridConfig::new("c".into(), "s".into(), "a".into(), " ".into()).host, " ");
    match EdgeGridConfig::validate_config(EdgeGridConfig::new(
        "c".into(),
        "s".into(),
        "a".into(),
        "".into(),
    )) {
        Err(EdgeGridError::MissingCredential(name)) => assert_eq!(name, "host"),
        other => panic!("unexpected: {:?}", other),
    }
}

#[test]
fn the_slashes_of_the_scheme_are_no_final_slash() {
    let mut config = EdgeGridConfig::new("c".into(), "s".into(), "a".into(), "x".into());
    config.host = "https://".into();
    assert_eq!(EdgeGridConfig::validate_config(config.clone()).unwrap().host, "https://");
    config.host = "/".into();
    assert_eq!(EdgeGridConfig::validate_config(config).unwrap().host, "https://");
}
