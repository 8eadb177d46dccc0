use hftlive::config::{
    chars_are_loopback_ipv4, contains_text, matched_execution_environment, replace_text,
    valid_transport, validate_app_config, ConfigError,
};
use hftlive::ports::RunMode;
use hftlive::protocol::BinanceConfig;
use hftlive::safety::SafetyConfig;

const PUBLIC_ONLY: &str = r#"
public_stream_url = "wss://example.test/ws"
api_url = "https://example.test"
order_prefix = "config-test"
"#;

#[derive(Clone, Copy)]
struct ExecutionEndpointProfile {
    name: &'static str,
    api: &'static str,
    public_stream: &'static str,
    private_stream: &'static str,
}

const EXECUTION_ENDPOINT_PROFILES: [ExecutionEndpointProfile; 3] = [
    ExecutionEndpointProfile {
        name: "production",
        api: "https://fapi.binance.com",
        public_stream: "wss://fstream.binance.com/public/stream",
        private_stream: "wss://fstream.binance.com/private/ws/{listen_key}",
    },
    ExecutionEndpointProfile {
        name: "demo",
        api: "https://demo-fapi.binance.com",
        public_stream: "wss://demo-fstream.binance.com/ws",
        private_stream: "wss://demo-fstream.binance.com/ws/{listen_key}",
    },
    ExecutionEndpointProfile {
        name: "testnet",
        api: "https://testnet.binancefuture.com",
        public_stream: "wss://stream.binancefuture.com/ws",
        private_stream: "wss://stream.binancefuture.com/ws/{listen_key}",
    },
];

/// Reads the adapter settings of a configuration text and validates them; the risk limits
/// (floating point) are checked here as the application checks them.
fn parse_and_validate(raw: &str, mode: RunMode) -> Result<(), ConfigError> {
    let table: toml::Table = raw.parse().map_err(|_| ConfigError::InvalidToml)?;
    let text = |key: &str| {
        table
            .get(key)
            .and_then(|value| value.as_str())
            .unwrap_or("")
            .to_string()
    };
    let exchange = BinanceConfig {
        public_stream_url: text("public_stream_url"),
        private_stream_url: text("private_stream_url"),
        api_url: text("api_url"),
        order_prefix: text("order_prefix"),
        api_key: text("api_key"),
        secret: text("secret"),
        allow_test_endpoints: table
            .get("allow_test_endpoints")
            .and_then(|value| value.as_bool())
            .unwrap_or(false),
    };
    let risk = table.get("risk").and_then(|value| value.as_table());
    let limit = |key: &str, default: f64| {
        risk.and_then(|risk| risk.get(key))
            .and_then(|value| value.as_float())
            .unwrap_or(default)
    };
    let risk_is_valid = [
        limit("max_order_qty", 0.001),
        limit("max_order_notional", 100.0),
        limit("max_position", 0.003),
    ]
    .iter()
    .all(|value| value.is_finite() && *value > 0.0);
    validate_app_config(&exchange, &SafetyConfig::default(), risk_is_valid, mode)
}

fn execution_config(
    api: &str,
    public_stream: &str,
    private_stream: &str,
    allow_test_endpoints: bool,
) -> String {
    format!(
        r#"
public_stream_url = "{public_stream}"
private_stream_url = "{private_stream}"
api_url = "{api}"
order_prefix = "config-test"
api_key = "configured-key"
secret = "configured-secret"
allow_test_endpoints = {allow_test_endpoints}
"#
    )
}

fn endpoint_mutations(url: &str) -> [(&'static str, String); 5] {
    let scheme_end = url.find("://").expect("test endpoint has a scheme") + 3;
    let authority_end = url[scheme_end..]
        .find('/')
        .map_or(url.len(), |path_start| scheme_end + path_start);

    [
        (
            "userinfo",
            format!("{}operator@{}", &url[..scheme_end], &url[scheme_end..]),
        ),
        ("query", format!("{url}?unexpected=true")),
        ("fragment", format!("{url}#unexpected")),
        (
            "non-default port",
            format!("{}:444{}", &url[..authority_end], &url[authority_end..]),
        ),
        ("unexpected path", format!("{url}/unexpected")),
    ]
}

fn assert_untrusted_execution_config(raw: &str, context: &str) {
    let error = match parse_and_validate(raw, RunMode::Execute) {
        Ok(_) => panic!("{context} unexpectedly passed execution validation"),
        Err(error) => error,
    };
    assert_eq!(
        error.message(),
        "execute mode requires a matched Binance endpoint environment",
        "{context}"
    );
}

#[test]
fn dry_run_accepts_public_only_configuration() {
    let config = parse_and_validate(PUBLIC_ONLY, RunMode::DryRun);
    assert!(config.is_ok());
}

#[test]
fn execute_requires_complete_credentials_and_private_stream() {
    let error = parse_and_validate(PUBLIC_ONLY, RunMode::Execute).unwrap_err();
    assert_eq!(error.message(), "execute mode requires API credentials");
}

#[test]
fn execute_rejects_credentials_without_a_private_stream_template() {
    let raw =
        format!("{PUBLIC_ONLY}\napi_key = \"configured-key\"\nsecret = \"configured-secret\"\n");
    let error = parse_and_validate(&raw, RunMode::Execute).unwrap_err();
    assert_eq!(
        error.message(),
        "execute mode requires a secure private_stream_url with {listen_key}"
    );
}

#[test]
fn remote_endpoints_must_use_encrypted_transports() {
    let raw = PUBLIC_ONLY
        .replace("wss://example.test/ws", "ws://example.test/ws")
        .replace("https://example.test", "http://example.test");
    let error = parse_and_validate(&raw, RunMode::DryRun).unwrap_err();
    assert_eq!(error.message(), "remote Binance endpoints must use wss/https");
}

#[test]
fn partial_credentials_are_rejected_in_every_mode() {
    let raw = format!("{PUBLIC_ONLY}\napi_key = \"key-only\"\n");
    let error = parse_and_validate(&raw, RunMode::DryRun).unwrap_err();
    assert_eq!(
        error.message(),
        "api_key and secret must be configured together"
    );
}

#[test]
fn configuration_errors_do_not_expose_secret_values() {
    let sentinel = "DO_NOT_LEAK_THIS_SECRET";
    let raw = format!("{PUBLIC_ONLY}\napi_key = \"key\"\nsecret = \"{sentinel}\"\nbroken = [\n");
    let error = parse_and_validate(&raw, RunMode::Execute).unwrap_err();
    let rendered = format!("{error:?} {}", error.message());
    assert!(!rendered.contains(sentinel));
}

#[test]
fn non_finite_risk_limits_are_rejected_at_startup() {
    let raw = format!("{PUBLIC_ONLY}\n[risk]\nmax_order_qty = nan\n");
    let error = parse_and_validate(&raw, RunMode::DryRun).unwrap_err();
    assert_eq!(error.message(), "risk limits must be finite and positive");
}

#[test]
fn execute_rejects_credentials_sent_to_untrusted_https_hosts() {
    let raw = r#"
public_stream_url = "wss://stream.attacker.example/ws"
private_stream_url = "wss://stream.attacker.example/ws/{listen_key}"
api_url = "https://api.attacker.example"
order_prefix = "config-test"
api_key = "configured-key"
secret = "configured-secret"
"#;

    let error = parse_and_validate(raw, RunMode::Execute).unwrap_err();

    assert_eq!(
        error.message(),
        "execute mode requires a matched Binance endpoint environment"
    );
}

#[test]
fn execute_requires_explicit_opt_in_for_loopback_endpoints() {
    let base = r#"
public_stream_url = "ws://127.0.0.1:18080/ws"
private_stream_url = "ws://127.0.0.1:18081/ws/{listen_key}"
api_url = "http://127.0.0.1:18082"
order_prefix = "config-test"
api_key = "configured-key"
secret = "configured-secret"
"#;

    assert!(parse_and_validate(base, RunMode::Execute).is_err());
    let explicitly_allowed = format!("{base}\nallow_test_endpoints = true\n");
    assert!(parse_and_validate(&explicitly_allowed, RunMode::Execute).is_ok());
}

#[test]
fn execute_accepts_canonical_binance_endpoint_profiles() {
    for profile in EXECUTION_ENDPOINT_PROFILES {
        let raw = execution_config(
            profile.api,
            profile.public_stream,
            profile.private_stream,
            false,
        );
        assert!(
            parse_and_validate(&raw, RunMode::Execute).is_ok(),
            "{} profile should remain valid",
            profile.name
        );
    }
}

#[test]
fn execute_rejects_noncanonical_urls_for_every_binance_endpoint_profile() {
    for profile in EXECUTION_ENDPOINT_PROFILES {
        for (surface, original, endpoint_index) in [
            ("api", profile.api, 0),
            ("public stream", profile.public_stream, 1),
            ("private stream", profile.private_stream, 2),
        ] {
            for (mutation, mutated) in endpoint_mutations(original) {
                let (api, public_stream, private_stream) = match endpoint_index {
                    0 => (
                        mutated.as_str(),
                        profile.public_stream,
                        profile.private_stream,
                    ),
                    1 => (profile.api, mutated.as_str(), profile.private_stream),
                    2 => (profile.api, profile.public_stream, mutated.as_str()),
                    _ => unreachable!(),
                };
                let raw = execution_config(api, public_stream, private_stream, false);
                let context = format!("{} {surface} with {mutation}", profile.name);
                assert_untrusted_execution_config(&raw, &context);
            }
        }
    }
}

#[test]
fn execute_loopback_opt_in_only_allows_http_and_ws_transports() {
    let api = "http://127.0.0.1:18082";
    let public_stream = "ws://127.0.0.1:18080/ws";
    let private_stream = "ws://127.0.0.1:18081/ws/{listen_key}";
    let canonical = execution_config(api, public_stream, private_stream, true);
    assert!(parse_and_validate(&canonical, RunMode::Execute).is_ok());

    for (surface, api, public_stream, private_stream) in [
        (
            "api",
            "https://127.0.0.1:18082",
            public_stream,
            private_stream,
        ),
        (
            "public stream",
            api,
            "wss://127.0.0.1:18080/ws",
            private_stream,
        ),
        (
            "private stream",
            api,
            public_stream,
            "wss://127.0.0.1:18081/ws/{listen_key}",
        ),
    ] {
        let raw = execution_config(api, public_stream, private_stream, true);
        assert_untrusted_execution_config(&raw, &format!("secure loopback {surface}"));
    }
}

#[test]
fn loopback_hosts_are_localhost_or_ipv4_loopback_addresses() {
    assert!(valid_transport("ws://LocalHost:9000/ws", "wss", "ws"));
    assert!(valid_transport("ws://127.255.0.9/ws", "wss", "ws"));
    assert!(!valid_transport("ws://128.0.0.1/ws", "wss", "ws"));
    assert!(!valid_transport("ws://[::1]:9000/ws", "wss", "ws"));
    assert!(!valid_transport("ws://localhost.example/ws", "wss", "ws"));
    assert!(!valid_transport("not a url", "wss", "ws"));
    assert!(valid_transport("wss://example.test/ws", "wss", "ws"));
    assert!(!matched_execution_environment(
        "https://fapi.binance.com",
        "wss://fstream.binance.com/public/stream",
        "wss://fstream.binance.com/private/ws/other-key",
        false
    ));
}

#[test]
fn ipv4_loopback_text_follows_the_standard_address_grammar() {
    let check = |text: &str| chars_are_loopback_ipv4(&text.chars().collect());
    assert!(check("127.0.0.1"));
    assert!(check("127.1.2.255"));
    assert!(!check("127.0.0.01"));
    assert!(!check("127.0.0.256"));
    assert!(!check("127.0.0"));
    assert!(!check("127.0.0.1.1"));
    assert!(!check("0127.0.0.1"));
    assert!(!check("10.0.0.1"));
    assert!(!check("127.0.0.a"));
    assert!(!check(""));
}

#[test]
fn replace_text_replaces_every_occurrence_left_to_right() {
    let chars = |text: &str| text.chars().collect::<Vec<char>>();
    let out = replace_text(&chars("a{k}b{k}{k}"), &chars("{k}"), &chars("xy"));
    assert_eq!(out.iter().collect::<String>(), "axybxyxy");
    let out = replace_text(&chars("aaa"), &chars("aa"), &chars("b"));
    assert_eq!(out.iter().collect::<String>(), "ba");
    assert!(contains_text(&chars("ws/{listen_key}"), &chars("{listen_key}")));
    assert!(!contains_text(&chars("ws/{listen"), &chars("{listen_key}")));
}
