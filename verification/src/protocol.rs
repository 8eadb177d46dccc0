//! Messages and configuration records exchanged with Binance, as plain values.
use vstd::prelude::*;

use crate::text::{chars_of, is_blank, str_is_blank};

verus! {

/// `std::num::ParseFloatError`, kept as the cause of a price or quantity that did not parse.
#[verifier::external_type_specification]
#[verifier::external_body]
pub struct ExParseFloatError(std::num::ParseFloatError);

/// An error object in a Binance REST response.
#[derive(Clone, Debug, PartialEq, Eq)]
pub struct ErrorResponse {
    pub code: i64,
    pub msg: String,
}

/// A REST depth snapshot: the last update id it reflects, its times, and the price levels as
/// the decimal texts Binance sends.
#[derive(Clone, Debug, PartialEq, Eq)]
pub struct Depth {
    pub last_update_id: i64,
    pub event_time: i64,
    pub transaction_time: i64,
    pub bids: Vec<(String, String)>,
    pub asks: Vec<(String, String)>,
}

/// An algo-order update of the user data stream.
#[derive(Clone, Debug, PartialEq, Eq)]
pub struct AlgoUpdate {
    pub event_time: i64,
    pub transaction_time: i64,
    pub order: AlgoOrder,
}

#[derive(Clone, Debug, PartialEq, Eq)]
pub struct AlgoOrder {
    pub client_algo_id: String,
    pub symbol: String,
    pub status: String,
    pub reduce_only: bool,
}

/// Endpoints and credentials of the first-generation Binance adapter.
#[derive(Clone)]
pub struct Config {
    pub public_stream_url: String,
    pub private_stream_url: String,
    pub api_url: String,
    pub order_prefix: String,
    pub api_key: String,
    pub secret: String,
}

/// Endpoints, credentials and identifier prefix of the Binance USD-M adapter.
#[derive(Clone)]
pub struct BinanceConfig {
    pub public_stream_url: String,
    pub private_stream_url: String,
    pub api_url: String,
    pub order_prefix: String,
    pub api_key: String,
    pub secret: String,
    pub allow_test_endpoints: bool,
}

impl BinanceConfig {
    /// Whether both an API key and a secret are present (what the redacted debug view shows in
    /// place of the credentials).
    pub fn credentials_configured(&self) -> (r: bool)
        ensures
            r == (self.api_key@.len() != 0 && self.secret@.len() != 0),
    {
        !self.api_key.as_str().is_empty() && !self.secret.as_str().is_empty()
    }
}

/// Builds a connector from its configuration text.
pub trait ConnectorBuilder {
    type Error;

    fn build_from(config: &str) -> Result<Self, Self::Error> where Self: Sized;
}

/// A price or quantity text of a legacy message did not parse.
#[derive(Debug)]
pub enum BybitError {
    InvalidPxQty(std::num::ParseFloatError),
}

/// The connector kinds that a launcher accepts.
pub open spec fn is_supported_connector(name: Seq<char>) -> bool {
    name == "binancefutures"@ || name == "binancespot"@ || name == "bybit"@
}

/// Why a connector launcher configuration is refused.
#[derive(Clone, Debug, PartialEq, Eq)]
pub enum RuntimeConfigError {
    EmptyName,
    UnsupportedConnector(String),
}

/// Checks a connector launcher configuration: a name that is not blank and a supported connector.
pub fn validate_runtime_config(name: &str, connector: &str) -> (r: Result<(), RuntimeConfigError>)
    ensures
        is_blank(name@) ==> r == Err::<(), RuntimeConfigError>(RuntimeConfigError::EmptyName),
        !is_blank(name@) && is_supported_connector(connector@) ==> r is Ok,
        !is_blank(name@) && !is_supported_connector(connector@) ==> (r matches Err(
            RuntimeConfigError::UnsupportedConnector(c),
        ) && c@ == connector@),
{
    if str_is_blank(name) {
        return Err(RuntimeConfigError::EmptyName);
    }
    if crate::text::str_equal(connector, "binancefutures") || crate::text::str_equal(connector, "binancespot")
        || crate::text::str_equal(connector, "bybit") {
        return Ok(());
    }
    Err(RuntimeConfigError::UnsupportedConnector(crate::text::string_of(&chars_of(connector))))
}

/// The exchanges the market-data collector records.
#[derive(Clone, Copy, Debug, PartialEq, Eq, Structural)]
pub enum Exchange {
    BinanceSpot,
    BinanceFuturesUm,
    BinanceFuturesCm,
    Bybit,
    Hyperliquid,
}

/// What the collector records and where.
#[derive(Clone, Debug, PartialEq, Eq)]
pub struct CollectorConfig {
    pub output_path: String,
    pub exchange: Exchange,
    pub symbols: Vec<String>,
    pub streams: Vec<String>,
    pub proxy: Option<String>,
}

/// Why a collector configuration is refused.
#[derive(Clone, Copy, Debug, PartialEq, Eq, Structural)]
pub enum CollectorConfigError {
    EmptyOutputPath,
    NoSymbols,
    EmptySymbol,
    NoStreams,
    EmptyStream,
    EmptyProxy,
}

/// The text the collector reports for each configuration error.
pub open spec fn collector_error_text(e: CollectorConfigError) -> Seq<char> {
    match e {
        CollectorConfigError::EmptyOutputPath => "output_path must not be empty"@,
        CollectorConfigError::NoSymbols => "symbols must not be empty"@,
        CollectorConfigError::EmptySymbol => "symbols must not contain an empty value"@,
        CollectorConfigError::NoStreams => "streams must not be empty"@,
        CollectorConfigError::EmptyStream => "streams must not contain an empty value"@,
        CollectorConfigError::EmptyProxy => "proxy must not be empty"@,
    }
}

impl CollectorConfigError {
    /// The error text the collector reports.
    pub fn message(&self) -> (r: &'static str)
        ensures
            r@ == collector_error_text(*self),
    {
        match self {
            CollectorConfigError::EmptyOutputPath => "output_path must not be empty",
            CollectorConfigError::NoSymbols => "symbols must not be empty",
            CollectorConfigError::EmptySymbol => "symbols must not contain an empty value",
            CollectorConfigError::NoStreams => "streams must not be empty",
            CollectorConfigError::EmptyStream => "streams must not contain an empty value",
            CollectorConfigError::EmptyProxy => "proxy must not be empty",
        }
    }
}

pub open spec fn some_blank(v: Seq<String>) -> bool {
    exists|i: int| 0 <= i < v.len() && is_blank((#[trigger] v[i])@)
}

/// The first check a collector configuration fails, in the order they are made.
pub open spec fn collector_config_error(c: CollectorConfig) -> Option<CollectorConfigError> {
    if is_blank(c.output_path@) {
        Some(CollectorConfigError::EmptyOutputPath)
    } else if c.symbols@.len() == 0 {
        Some(CollectorConfigError::NoSymbols)
    } else if some_blank(c.symbols@) {
        Some(CollectorConfigError::EmptySymbol)
    } else if c.streams@.len() == 0 {
        Some(CollectorConfigError::NoStreams)
    } else if some_blank(c.streams@) {
        Some(CollectorConfigError::EmptyStream)
    } else if c.proxy matches Some(p) && is_blank(p@) {
        Some(CollectorConfigError::EmptyProxy)
    } else {
        None
    }
}

fn any_blank(v: &Vec<String>) -> (r: bool)
    ensures
        r == some_blank(v@),
{
    let mut i: usize = 0;
    while i < v.len()
        invariant
            i <= v.len(),
            forall|j: int| 0 <= j < i ==> !is_blank((#[trigger] v@[j])@),
        decreases v.len() - i,
    {
        if str_is_blank(v[i].as_str()) {
            return true;
        }
        i = i + 1;
    }
    false
}

impl CollectorConfig {
    /// Checks the configuration: a path, at least one symbol and one stream, none blank, and a
    /// proxy that is not blank when given.
    pub fn validate(&self) -> (r: Result<(), CollectorConfigError>)
        ensures
            match collector_config_error(*self) {
                None => r is Ok,
                Some(e) => r == Err::<(), CollectorConfigError>(e),
            },
    {
        if str_is_blank(self.output_path.as_str()) {
            return Err(CollectorConfigError::EmptyOutputPath);
        }
        if self.symbols.len() == 0 {
            return Err(CollectorConfigError::NoSymbols);
        }
        if any_blank(&self.symbols) {
            return Err(CollectorConfigError::EmptySymbol);
        }
        if self.streams.len() == 0 {
            return Err(CollectorConfigError::NoStreams);
        }
        if any_blank(&self.streams) {
            return Err(CollectorConfigError::EmptyStream);
        }
        match &self.proxy {
            Some(p) => {
                if str_is_blank(p.as_str()) {
                    return Err(CollectorConfigError::EmptyProxy);
                }
            },
            None => {},
        }
        Ok(())
    }
}

} // verus!
