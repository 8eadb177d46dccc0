use hftlive::npy::Field;
use hftlive::npy_header::read_npy_header;
use hftlive::protocol::{validate_runtime_config, CollectorConfig, Exchange, RuntimeConfigError};

const VALID: &str = r#"
output_path = "data/market"
exchange = "binancefutures"
symbols = ["dogeusdt", "btcusdt"]
streams = ["$symbol@trade", "$symbol@bookTicker", "$symbol@depth@100ms"]
proxy = "127.0.0.1:7890"
"#;

/// Reads a collector configuration text into the library's type and validates it.
fn parse_collector(text: &str) -> Result<CollectorConfig, String> {
    let table: toml::Table = text.parse().map_err(|error| format!("failed to parse TOML: {error}"))?;
    let text_of = |key: &str| table.get(key).and_then(|v| v.as_str()).map(|s| s.to_string());
    let list_of = |key: &str| {
        table
            .get(key)
            .and_then(|v| v.as_array())
            .map(|items| {
                items
                    .iter()
                    .filter_map(|item| item.as_str().map(|s| s.to_string()))
                    .collect::<Vec<_>>()
            })
            .unwrap_or_default()
    };
    let exchange = match text_of("exchange").as_deref() {
        Some("binance") | Some("binancespot") => Exchange::BinanceSpot,
        Some("binancefutures") | Some("binancefuturesum") => Exchange::BinanceFuturesUm,
        Some("binancefuturescm") => Exchange::BinanceFuturesCm,
        Some("bybit") => Exchange::Bybit,
        Some("hyperliquid") => Exchange::Hyperliquid,
        _ => return Err("unknown exchange".to_string()),
    };
    let config = CollectorConfig {
        output_path: text_of("output_path").unwrap_or_default(),
        exchange,
        symbols: list_of("symbols"),
        streams: list_of("streams"),
        proxy: text_of("proxy"),
    };
    config.validate().map_err(|error| error.message().to_string())?;
    Ok(config)
}

/// Reads a connector launcher configuration and validates it.
fn parse_runtime_config(text: &str) -> Result<(String, String), RuntimeConfigError> {
    let table: toml::Table = text.parse().unwrap();
    let name = table.get("name").and_then(|v| v.as_str()).unwrap_or("").to_string();
    let connector = table.get("connector").and_then(|v| v.as_str()).unwrap_or("").to_string();
    validate_runtime_config(&name, &connector)?;
    Ok((name, connector))
}

#[test]
fn parses_all_collection_parameters_from_toml() {
    let config = parse_collector(VALID).unwrap();

    assert_eq!(config.output_path, "data/market");
    assert_eq!(config.exchange, Exchange::BinanceFuturesUm);
    assert_eq!(config.symbols, ["dogeusdt", "btcusdt"]);
    assert_eq!(config.streams.len(), 3);
    assert_eq!(config.proxy.as_deref(), Some("127.0.0.1:7890"));
}

#[test]
fn rejects_empty_symbols_and_streams() {
    let no_symbols = VALID.replace("symbols = [\"dogeusdt\", \"btcusdt\"]", "symbols = []");
    assert!(parse_collector(&no_symbols).is_err());

    let no_streams = VALID.replace(
        "streams = [\"$symbol@trade\", \"$symbol@bookTicker\", \"$symbol@depth@100ms\"]",
        "streams = []",
    );
    assert!(parse_collector(&no_streams).is_err());
}

#[test]
fn rejects_empty_proxy() {
    let config = VALID.replace("127.0.0.1:7890", "  ");
    let error = parse_collector(&config).unwrap_err();
    assert!(error.contains("proxy must not be empty"));
}

#[test]
fn extracts_launcher_parameters_from_exchange_config() {
    let config = parse_runtime_config(
        r#"
name = "binancefutures-prod"
connector = "binancefutures"
api_url = "https://fapi.binance.com"
"#,
    )
    .unwrap();
    assert_eq!(config.0, "binancefutures-prod");
    assert_eq!(config.1, "binancefutures");
}

#[test]
fn rejects_unsupported_connector() {
    assert!(parse_runtime_config("name='x'\nconnector='unknown'").is_err());
}

#[test]
fn read_npy_rejects_a_truncated_preamble() {
    let bytes = b"\x93NUMPY\x01\x00";

    let expected = vec![Field { name: "ev".to_string(), ty: "<u8".to_string() }];

    let error = read_npy_header(bytes, &expected).unwrap_err();

    assert!(error.is_unexpected_eof());
}

#[test]
fn read_npy_rejects_a_header_length_past_end_of_file() {
    let mut bytes = b"\x93NUMPY\x01\x00".to_vec();
    bytes.extend_from_slice(&u16::MAX.to_le_bytes());
    bytes.resize(64, b' ');

    let expected = vec![Field { name: "ev".to_string(), ty: "<u8".to_string() }];

    let error = read_npy_header(&bytes, &expected).unwrap_err();

    assert!(error.is_unexpected_eof());
}
