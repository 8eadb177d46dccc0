//! Binance USD-M futures: the adapter's error kinds and how submission failures are judged, the
//! wire names of order fields, and the request texts that are signed and sent.
use vstd::prelude::*;
use hmac::{Hmac, Mac};
use sha2::Sha256;
use vstd::string::StringSliceAdditionalSpecFns;

use crate::text::{chars_of, push_all, str_equal};
use crate::types::{OrdType, Side, Status, TimeInForce};

verus! {

/// What the adapter keeps of a failed HTTP exchange.
#[derive(Clone, Debug)]
pub struct TransportFailure {
    /// The HTTP status, when a response arrived.
    pub status: Option<u16>,
    pub message: String,
    pub timed_out: bool,
    pub undecodable: bool,
}

#[derive(Debug)]
pub enum BinanceFuturesError {
    InstrumentNotFound,
    InvalidRequest,
    ListenKeyExpired,
    ConnectionInterrupted,
    PublishSinkClosed,
    ConnectionAbort(String),
    ReqError(TransportFailure),
    OrderError { code: i64, msg: String },
    PrefixUnmatched,
    InvalidOrderPrefix,
    MalformedClientOrderId,
    OrderRecoveryConflict,
    UnsupportedPositionMode,
    InvalidAccountState,
    DepthBufferOverflow,
    OrderNotFound,
    Tungstenite(String),
}

/// The Binance error codes that reject a submission for certain: post-only rejected, position
/// or capacity limit, margin insufficient, too many orders, server overloaded.
pub open spec fn is_definitive_rejection_code(code: i64) -> bool {
    code == -5022 || code == -2027 || code == -2019 || code == -1015 || code == -1008
}

/// A submission may have been accepted although it failed locally: a transport failure, or an
/// exchange error other than the definitive rejections.
pub open spec fn spec_submission_is_ambiguous(e: BinanceFuturesError) -> bool {
    match e {
        BinanceFuturesError::ReqError(_) => true,
        BinanceFuturesError::OrderError { code, .. } => !is_definitive_rejection_code(code),
        _ => false,
    }
}

/// The code of an error returned when an order would not fit in a query response.
pub const AMBIGUOUS_ORDER_RESPONSE_CODE: i64 = -1_000_001;

/// The code Binance returns for an order that does not exist (any more).
pub const UNKNOWN_ORDER_CODE: i64 = -2011;

/// The code Binance returns when a query finds no order.
pub const ORDER_DOES_NOT_EXIST_CODE: i64 = -2013;

/// The code of a rejection by a position or capacity limit.
pub const CAPACITY_REJECTION_CODE: i64 = -2027;

impl BinanceFuturesError {
    pub fn submission_is_ambiguous(&self) -> (r: bool)
        ensures
            r == spec_submission_is_ambiguous(*self),
    {
        match self {
            BinanceFuturesError::ReqError(_) => true,
            BinanceFuturesError::OrderError { code, .. } => {
                let c = *code;
                !(c == -5022 || c == -2027 || c == -2019 || c == -1015 || c == -1008)
            },
            _ => false,
        }
    }

    /// The rejection code when the exchange refused the side for a position or capacity limit.
    pub fn submission_capacity_rejection_code(&self) -> (r: Option<i64>)
        ensures
            (*self matches BinanceFuturesError::OrderError { code, .. } && code == CAPACITY_REJECTION_CODE)
                ==> r == Some(CAPACITY_REJECTION_CODE),
            !(*self matches BinanceFuturesError::OrderError { code, .. } && code == CAPACITY_REJECTION_CODE)
                ==> r is None,
    {
        match self {
            BinanceFuturesError::OrderError { code, .. } => {
                if *code == CAPACITY_REJECTION_CODE {
                    Some(CAPACITY_REJECTION_CODE)
                } else {
                    None
                }
            },
            _ => None,
        }
    }

    /// Whether the error is the exchange's "unknown order" answer.
    pub fn is_unknown_order(&self) -> (r: bool)
        ensures
            r == (*self matches BinanceFuturesError::OrderError { code, .. } && code == UNKNOWN_ORDER_CODE),
    {
        match self {
            BinanceFuturesError::OrderError { code, .. } => *code == UNKNOWN_ORDER_CODE,
            _ => false,
        }
    }
}

/// An ambiguous submission is never published as a capacity rejection: the two judgements exclude
/// each other.
pub proof fn capacity_rejections_are_definitive(code: i64, msg: String)
    requires
        code == CAPACITY_REJECTION_CODE,
    ensures
        !spec_submission_is_ambiguous(BinanceFuturesError::OrderError { code, msg }),
{
}

/// The order status to record after a failed submission: the order expired.
pub fn status_after_submit_failure() -> (r: Status)
    ensures
        r == Status::Expired,
{
    Status::Expired
}

/// The order status to record after a failed cancel: after "unknown order" the state is
/// unknown; after any other failure the status is kept.
pub fn status_after_cancel_failure(error: &BinanceFuturesError) -> (r: Option<Status>)
    ensures
        (*error matches BinanceFuturesError::OrderError { code, .. } && code == UNKNOWN_ORDER_CODE)
            ==> r == Some(Status::NoStatus),
        !(*error matches BinanceFuturesError::OrderError { code, .. } && code == UNKNOWN_ORDER_CODE)
            ==> r is None,
{
    if error.is_unknown_order() {
        Some(Status::NoStatus)
    } else {
        None
    }
}

pub fn side_str(side: Side) -> (r: Result<&'static str, BinanceFuturesError>)
    ensures
        side == Side::Buy ==> r == Ok::<&'static str, BinanceFuturesError>("BUY"),
        side == Side::Sell ==> r == Ok::<&'static str, BinanceFuturesError>("SELL"),
        (side == Side::NoSide || side == Side::Unsupported) ==> r matches Err(
            BinanceFuturesError::InvalidRequest,
        ),
{
    match side {
        Side::Buy => Ok("BUY"),
        Side::Sell => Ok("SELL"),
        Side::NoSide | Side::Unsupported => Err(BinanceFuturesError::InvalidRequest),
    }
}

pub fn order_type_str(order_type: OrdType) -> (r: Result<&'static str, BinanceFuturesError>)
    ensures
        order_type == OrdType::Limit ==> r == Ok::<&'static str, BinanceFuturesError>("LIMIT"),
        order_type == OrdType::Market ==> r == Ok::<&'static str, BinanceFuturesError>("MARKET"),
        order_type == OrdType::Unsupported ==> r matches Err(BinanceFuturesError::InvalidRequest),
{
    match order_type {
        OrdType::Limit => Ok("LIMIT"),
        OrdType::Market => Ok("MARKET"),
        OrdType::Unsupported => Err(BinanceFuturesError::InvalidRequest),
    }
}

pub fn time_in_force_str(time_in_force: TimeInForce) -> (r: Result<&'static str, BinanceFuturesError>)
    ensures
        time_in_force == TimeInForce::GTC ==> r == Ok::<&'static str, BinanceFuturesError>("GTC"),
        time_in_force == TimeInForce::GTX ==> r == Ok::<&'static str, BinanceFuturesError>("GTX"),
        time_in_force == TimeInForce::FOK ==> r == Ok::<&'static str, BinanceFuturesError>("FOK"),
        time_in_force == TimeInForce::IOC ==> r == Ok::<&'static str, BinanceFuturesError>("IOC"),
        time_in_force == TimeInForce::Unsupported ==> r matches Err(BinanceFuturesError::InvalidRequest),
{
    match time_in_force {
        TimeInForce::GTC => Ok("GTC"),
        TimeInForce::GTX => Ok("GTX"),
        TimeInForce::FOK => Ok("FOK"),
        TimeInForce::IOC => Ok("IOC"),
        TimeInForce::Unsupported => Err(BinanceFuturesError::InvalidRequest),
    }
}

/// The side a Binance text names; only `BUY` and `SELL` are sides.
pub fn side_from_str(s: &str) -> (r: Option<Side>)
    ensures
        r == (if s@ == "BUY"@ {
            Some(Side::Buy)
        } else if s@ == "SELL"@ {
            Some(Side::Sell)
        } else {
            None
        }),
{
    if str_equal(s, "BUY") {
        Some(Side::Buy)
    } else if str_equal(s, "SELL") {
        Some(Side::Sell)
    } else {
        None
    }
}

/// The order status a Binance text names; unknown texts are `Unsupported`.
pub fn status_from_str(s: &str) -> (r: Status)
    ensures
        r == (if s@ == "NEW"@ {
            Status::New
        } else if s@ == "PARTIALLY_FILLED"@ {
            Status::PartiallyFilled
        } else if s@ == "FILLED"@ {
            Status::Filled
        } else if s@ == "CANCELED"@ {
            Status::Canceled
        } else if s@ == "REJECTED"@ {
            Status::Rejected
        } else if s@ == "EXPIRED"@ || s@ == "EXPIRED_IN_MATCH"@ {
            Status::Expired
        } else {
            Status::Unsupported
        }),
{
    if str_equal(s, "NEW") {
        Status::New
    } else if str_equal(s, "PARTIALLY_FILLED") {
        Status::PartiallyFilled
    } else if str_equal(s, "FILLED") {
        Status::Filled
    } else if str_equal(s, "CANCELED") {
        Status::Canceled
    } else if str_equal(s, "REJECTED") {
        Status::Rejected
    } else if str_equal(s, "EXPIRED") || str_equal(s, "EXPIRED_IN_MATCH") {
        Status::Expired
    } else {
        Status::Unsupported
    }
}

/// The order type a Binance text names; only `LIMIT` and `MARKET` are traded.
pub fn order_type_from_str(s: &str) -> (r: OrdType)
    ensures
        r == (if s@ == "LIMIT"@ {
            OrdType::Limit
        } else if s@ == "MARKET"@ {
            OrdType::Market
        } else {
            OrdType::Unsupported
        }),
{
    if str_equal(s, "LIMIT") {
        OrdType::Limit
    } else if str_equal(s, "MARKET") {
        OrdType::Market
    } else {
        OrdType::Unsupported
    }
}

/// The time in force a Binance text names; others (such as GTD) are `Unsupported`.
pub fn time_in_force_from_str(s: &str) -> (r: TimeInForce)
    ensures
        r == (if s@ == "GTC"@ {
            TimeInForce::GTC
        } else if s@ == "IOC"@ {
            TimeInForce::IOC
        } else if s@ == "FOK"@ {
            TimeInForce::FOK
        } else if s@ == "GTX"@ {
            TimeInForce::GTX
        } else {
            TimeInForce::Unsupported
        }),
{
    if str_equal(s, "GTC") {
        TimeInForce::GTC
    } else if str_equal(s, "IOC") {
        TimeInForce::IOC
    } else if str_equal(s, "FOK") {
        TimeInForce::FOK
    } else if str_equal(s, "GTX") {
        TimeInForce::GTX
    } else {
        TimeInForce::Unsupported
    }
}

/// The lower-case hexadecimal digit of a value below 16.
pub open spec fn hex_digit(d: nat) -> char {
    if d < 10 {
        ((48 + d) as nat) as char
    } else {
        ((87 + d) as nat) as char
    }
}

/// Two lower-case hexadecimal digits per byte (`{byte:02x}`).
pub open spec fn hex_lower(bytes: Seq<u8>) -> Seq<char>
    decreases bytes.len(),
{
    if bytes.len() == 0 {
        Seq::empty()
    } else {
        hex_lower(bytes.drop_last()) + seq![
            hex_digit((bytes.last() / 16) as nat),
            hex_digit((bytes.last() % 16) as nat),
        ]
    }
}

fn hex_char(d: u8) -> (c: char)
    requires
        d < 16,
    ensures
        c == hex_digit(d as nat),
{
    if d < 10 {
        crate::text::ascii_char(48u8 + d)
    } else {
        crate::text::ascii_char(87u8 + d)
    }
}

/// The lower-case hexadecimal text of bytes.
pub fn to_hex_lower(bytes: &Vec<u8>) -> (r: String)
    ensures
        r@ == hex_lower(bytes@),
{
    let mut out = String::new();
    let mut i: usize = 0;
    while i < bytes.len()
        invariant
            i <= bytes.len(),
            out@ == hex_lower(bytes@.take(i as int)),
        decreases bytes.len() - i,
    {
        let b = bytes[i];
        out.push(hex_char(b / 16));
        out.push(hex_char(b % 16));
        proof {
            let next = bytes@.take(i + 1);
            assert(next.drop_last() =~= bytes@.take(i as int));
            assert(next.last() == b);
        }
        i = i + 1;
    }
    assert(bytes@.take(bytes.len() as int) =~= bytes@);
    out
}

/// The HMAC-SHA256 tag of `message` under `key`.
pub uninterp spec fn hmac_sha256_tag(key: Seq<u8>, message: Seq<u8>) -> Seq<u8>;

/// `Hmac::<Sha256>::new_from_slice(key)`, `update(message)`, `finalize().into_bytes()`: the
/// 32-byte HMAC-SHA256 tag. HMAC takes a key of any length, so the key is never refused.
#[verifier::external_body]
fn hmac_sha256(key: &[u8], message: &[u8]) -> (r: Option<Vec<u8>>)
    ensures
        r matches Some(tag) ==> tag@ == hmac_sha256_tag(key@, message@),
        r is Some,
{
    let mut mac = Hmac::<Sha256>::new_from_slice(key).ok()?;
    mac.update(message);
    Some(mac.finalize().into_bytes().to_vec())
}

/// The signature Binance expects on a request: the lower-case hex HMAC-SHA256 of the request
/// text under the secret.
pub fn sign_hmac_sha256(secret: &str, message: &str) -> (r: Result<String, BinanceFuturesError>)
    ensures
        r matches Ok(sig) && sig@ == hex_lower(hmac_sha256_tag(secret.spec_bytes(), message.spec_bytes())),
{
    match hmac_sha256(secret.as_bytes(), message.as_bytes()) {
        Some(tag) => Ok(to_hex_lower(&tag)),
        None => Err(BinanceFuturesError::InvalidRequest),
    }
}

/// The decimal digits of a natural number, without leading zeros.
pub open spec fn decimal_digits(n: nat) -> Seq<char>
    decreases n,
{
    if n < 10 {
        seq![((48 + n) as nat) as char]
    } else {
        decimal_digits(n / 10).push(((48 + n % 10) as nat) as char)
    }
}

/// The decimal text of an integer (`{n}`).
pub open spec fn decimal(n: int) -> Seq<char> {
    if n < 0 {
        seq!['-'] + decimal_digits((-n) as nat)
    } else {
        decimal_digits(n as nat)
    }
}

pub fn push_decimal_digits(out: &mut String, n: u64)
    ensures
        final(out)@ == old(out)@ + decimal_digits(n as nat),
    decreases n,
{
    if n >= 10 {
        push_decimal_digits(out, n / 10);
    }
    out.push(crate::text::ascii_char(48u8 + (n % 10) as u8));
    proof {
        if n >= 10 {
            assert(decimal_digits(n as nat) == decimal_digits((n / 10) as nat).push(
                ((48 + n % 10) as nat) as char,
            ));
        }
    }
}

/// Appends the decimal text of `n`.
pub fn push_decimal(out: &mut String, n: i64)
    ensures
        final(out)@ == old(out)@ + decimal(n as int),
{
    let ghost start = out@;
    if n < 0 {
        out.push('-');
        let magnitude: u64 = if n == i64::MIN {
            9_223_372_036_854_775_808u64
        } else {
            (-n) as u64
        };
        push_decimal_digits(out, magnitude);
        assert(out@ =~= start + decimal(n as int));
    } else {
        push_decimal_digits(out, n as u64);
    }
}

/// The query parameters every signed request ends with.
pub open spec fn signed_suffix(timestamp: i64) -> Seq<char> {
    "recvWindow=5000&timestamp="@ + decimal(timestamp as int)
}

/// A query text with the receive window and timestamp that Binance requires of signed requests.
pub fn signed_query(query: &str, timestamp: i64) -> (r: String)
    ensures
        query@.len() == 0 ==> r@ == signed_suffix(timestamp),
        query@.len() > 0 ==> r@ == query@ + "&"@ + signed_suffix(timestamp),
{
    let mut out = String::new();
    if !query.is_empty() {
        let q = chars_of(query);
        push_all(&mut out, &q);
        let amp = chars_of("&");
        push_all(&mut out, &amp);
    }
    let fixed = chars_of("recvWindow=5000&timestamp=");
    push_all(&mut out, &fixed);
    push_decimal(&mut out, timestamp);
    proof {
        if query@.len() == 0 {
            assert(out@ =~= signed_suffix(timestamp));
        } else {
            assert(out@ =~= query@ + "&"@ + signed_suffix(timestamp));
        }
    }
    out
}

/// The text of a signed request: the parameters, then `&signature=` and the signature.
pub fn with_signature(params: &str, signature: &str) -> (r: String)
    ensures
        r@ == params@ + "&signature="@ + signature@,
{
    let mut out = String::new();
    let p = chars_of(params);
    push_all(&mut out, &p);
    let s = chars_of("&signature=");
    push_all(&mut out, &s);
    let g = chars_of(signature);
    push_all(&mut out, &g);
    assert(out@ =~= params@ + "&signature="@ + signature@);
    out
}

/// The parameters of a signed request at time `timestamp`.
pub open spec fn signed_params(query: Seq<char>, timestamp: i64) -> Seq<char> {
    if query.len() == 0 {
        signed_suffix(timestamp)
    } else {
        query + "&"@ + signed_suffix(timestamp)
    }
}

/// Signs `query` for Binance at the current time: the receive window and the clock's
/// timestamp are appended, then the signature of the whole under `secret`.
pub fn sign_request(secret: &str, query: &str) -> (r: Result<String, BinanceFuturesError>)
    ensures
        r matches Ok(text) && exists|t: i64| text@ == #[trigger] signed_params(query@, t) + "&signature="@ + hex_lower(
            hmac_sha256_tag(secret.spec_bytes(), vstd::utf8::encode_utf8(signed_params(query@, t))),
        ),
{
    let timestamp = crate::clock::now_ms();
    let params = signed_query(query, timestamp);
    let params_text = params.as_str();
    let signature = sign_hmac_sha256(secret, params_text)?;
    let text = with_signature(params_text, signature.as_str());
    assert(params@ == signed_params(query@, timestamp));
    assert(params_text.spec_bytes() == vstd::utf8::encode_utf8(params@));
    Ok(text)
}

/// The wire name of a side that has one.
pub open spec fn side_wire(side: Side) -> Seq<char> {
    if side == Side::Buy {
        "BUY"@
    } else {
        "SELL"@
    }
}

/// The wire name of an order type that has one.
pub open spec fn order_type_wire(ty: OrdType) -> Seq<char> {
    if ty == OrdType::Limit {
        "LIMIT"@
    } else {
        "MARKET"@
    }
}

/// The wire name of a time in force that has one.
pub open spec fn time_in_force_wire(tif: TimeInForce) -> Seq<char> {
    if tif == TimeInForce::GTC {
        "GTC"@
    } else if tif == TimeInForce::GTX {
        "GTX"@
    } else if tif == TimeInForce::FOK {
        "FOK"@
    } else {
        "IOC"@
    }
}

/// The form body of a new order.
pub open spec fn spec_order_body(
    client_order_id: Seq<char>,
    symbol: Seq<char>,
    side: Side,
    order_type: OrdType,
    time_in_force: TimeInForce,
    price: Seq<char>,
    quantity: Seq<char>,
) -> Seq<char> {
    "newClientOrderId="@ + client_order_id + "&symbol="@ + symbol + "&side="@ + side_wire(side)
        + (if order_type == OrdType::Limit {
        "&price="@ + price + "&timeInForce="@ + time_in_force_wire(time_in_force)
    } else {
        Seq::empty()
    }) + "&quantity="@ + quantity + "&type="@ + order_type_wire(order_type)
        + "&newOrderRespType=RESULT"@
}

/// The form body of a new order. `price` and `quantity` are already rounded to the instrument's
/// precision; a limit order carries a price and a time in force, a market order neither.
pub fn submit_order_body(
    client_order_id: &str,
    symbol: &str,
    side: Side,
    order_type: OrdType,
    time_in_force: TimeInForce,
    price: &str,
    quantity: &str,
) -> (r: Result<String, BinanceFuturesError>)
    ensures
        (side == Side::NoSide || side == Side::Unsupported || order_type == OrdType::Unsupported
            || (order_type == OrdType::Limit && time_in_force == TimeInForce::Unsupported))
            <==> r is Err,
        r matches Err(e) ==> e matches BinanceFuturesError::InvalidRequest,
        r matches Ok(body) ==> body@ == spec_order_body(
            client_order_id@,
            symbol@,
            side,
            order_type,
            time_in_force,
            price@,
            quantity@,
        ),
{
    let side_text = side_str(side)?;
    let mut out = String::new();
    push_all(&mut out, &chars_of("newClientOrderId="));
    push_all(&mut out, &chars_of(client_order_id));
    push_all(&mut out, &chars_of("&symbol="));
    push_all(&mut out, &chars_of(symbol));
    push_all(&mut out, &chars_of("&side="));
    push_all(&mut out, &chars_of(side_text));
    let ghost head = out@;
    assert(head =~= "newClientOrderId="@ + client_order_id@ + "&symbol="@ + symbol@ + "&side="@
        + side_wire(side));
    match order_type {
        OrdType::Limit => {
            let tif = time_in_force_str(time_in_force)?;
            push_all(&mut out, &chars_of("&price="));
            push_all(&mut out, &chars_of(price));
            push_all(&mut out, &chars_of("&timeInForce="));
            push_all(&mut out, &chars_of(tif));
            assert(out@ =~= head + ("&price="@ + price@ + "&timeInForce="@ + time_in_force_wire(time_in_force)));
        },
        _ => {
            assert(out@ =~= head + Seq::<char>::empty());
        },
    }
    let ty = order_type_str(order_type)?;
    let ghost mid = out@;
    push_all(&mut out, &chars_of("&quantity="));
    push_all(&mut out, &chars_of(quantity));
    push_all(&mut out, &chars_of("&type="));
    push_all(&mut out, &chars_of(ty));
    push_all(&mut out, &chars_of("&newOrderRespType=RESULT"));
    assert(out@ =~= mid + "&quantity="@ + quantity@ + "&type="@ + order_type_wire(order_type)
        + "&newOrderRespType=RESULT"@);
    Ok(out)
}

/// The form body that names one order of a symbol by its client order id.
pub fn order_reference(symbol: &str, client_order_id: &str) -> (r: String)
    ensures
        r@ == "symbol="@ + symbol@ + "&origClientOrderId="@ + client_order_id@,
{
    let mut out = String::new();
    push_all(&mut out, &chars_of("symbol="));
    push_all(&mut out, &chars_of(symbol));
    push_all(&mut out, &chars_of("&origClientOrderId="));
    push_all(&mut out, &chars_of(client_order_id));
    assert(out@ =~= "symbol="@ + symbol@ + "&origClientOrderId="@ + client_order_id@);
    out
}

/// The subscription message for a symbol's trade and 100 ms depth streams.
pub fn subscription_request(symbol: &str, id: &str) -> (r: String)
    ensures
        r@ == "{\n        \"method\":\"SUBSCRIBE\",\n        \"params\":[\""@ + symbol@
            + "@trade\",\""@ + symbol@ + "@depth@100ms\"],\n        \"id\":\""@ + id@
            + "\"\n    }"@,
{
    let mut out = String::new();
    push_all(&mut out, &chars_of("{\n        \"method\":\"SUBSCRIBE\",\n        \"params\":[\""));
    push_all(&mut out, &chars_of(symbol));
    push_all(&mut out, &chars_of("@trade\",\""));
    push_all(&mut out, &chars_of(symbol));
    push_all(&mut out, &chars_of("@depth@100ms\"],\n        \"id\":\""));
    push_all(&mut out, &chars_of(id));
    push_all(&mut out, &chars_of("\"\n    }"));
    assert(out@ =~= "{\n        \"method\":\"SUBSCRIBE\",\n        \"params\":[\""@ + symbol@
        + "@trade\",\""@ + symbol@ + "@depth@100ms\"],\n        \"id\":\""@ + id@ + "\"\n    }"@);
    out
}


/// What an order endpoint's JSON answer holds once any `error` or `result` envelope is opened:
/// nothing, a Binance error, a decoded payload, or something that decodes as neither.
#[derive(Debug)]
pub enum OrderPayload<O> {
    Null,
    Error { code: i64, msg: String },
    Decoded(O),
    Unrecognized,
}

/// The message of the error that stands for an order answer of unknown shape.
pub open spec fn unrecognized_order_message() -> Seq<char> {
    "unrecognized Binance order response schema"@
}

/// The outcome of an order submission or cancel answer: the order; a Binance error as an order
/// error; anything else as an order error with the ambiguous-answer code, since the request may
/// have been executed.
pub fn order_response_outcome<O>(payload: OrderPayload<O>) -> (r: Result<O, BinanceFuturesError>)
    ensures
        match payload {
            OrderPayload::Decoded(o) => r == Ok::<O, BinanceFuturesError>(o),
            OrderPayload::Error { code, msg } => r == Err::<O, BinanceFuturesError>(
                BinanceFuturesError::OrderError { code, msg },
            ),
            _ => r matches Err(BinanceFuturesError::OrderError { code, msg }) && code
                == AMBIGUOUS_ORDER_RESPONSE_CODE && msg@ == unrecognized_order_message(),
        },
{
    match payload {
        OrderPayload::Decoded(o) => Ok(o),
        OrderPayload::Error { code, msg } => Err(BinanceFuturesError::OrderError { code, msg }),
        _ => Err(BinanceFuturesError::OrderError {
            code: AMBIGUOUS_ORDER_RESPONSE_CODE,
            msg: "unrecognized Binance order response schema".to_owned(),
        }),
    }
}

/// The outcome of an order query: the order; `None` when there is nothing, when Binance does
/// not have the order, or when the answer cannot be read (account reconciliation decides then);
/// any other Binance error as an order error.
pub fn query_order_outcome<O>(payload: OrderPayload<O>) -> (r: Result<Option<O>, BinanceFuturesError>)
    ensures
        match payload {
            OrderPayload::Decoded(o) => r == Ok::<Option<O>, BinanceFuturesError>(Some(o)),
            OrderPayload::Error { code, msg } => if code == ORDER_DOES_NOT_EXIST_CODE {
                r == Ok::<Option<O>, BinanceFuturesError>(None)
            } else {
                r == Err::<Option<O>, BinanceFuturesError>(BinanceFuturesError::OrderError { code, msg })
            },
            _ => r == Ok::<Option<O>, BinanceFuturesError>(None),
        },
{
    match payload {
        OrderPayload::Decoded(o) => Ok(Some(o)),
        OrderPayload::Error { code, msg } => {
            if code == ORDER_DOES_NOT_EXIST_CODE {
                Ok(None)
            } else {
                Err(BinanceFuturesError::OrderError { code, msg })
            }
        },
        _ => Ok(None),
    }
}

/// The outcome of an open-orders query: the orders; a Binance error as an order error; an
/// answer that cannot be read as an invalid account state.
pub fn open_orders_outcome<O>(payload: OrderPayload<Vec<O>>) -> (r: Result<Vec<O>, BinanceFuturesError>)
    ensures
        match payload {
            OrderPayload::Decoded(v) => r == Ok::<Vec<O>, BinanceFuturesError>(v),
            OrderPayload::Error { code, msg } => r == Err::<Vec<O>, BinanceFuturesError>(
                BinanceFuturesError::OrderError { code, msg },
            ),
            _ => r == Err::<Vec<O>, BinanceFuturesError>(BinanceFuturesError::InvalidAccountState),
        },
{
    match payload {
        OrderPayload::Decoded(v) => Ok(v),
        OrderPayload::Error { code, msg } => Err(BinanceFuturesError::OrderError { code, msg }),
        _ => Err(BinanceFuturesError::InvalidAccountState),
    }
}

/// The body of a limit order carries its price and, right after it, its time in force by its
/// wire name (`timeInForce=GTX` for a post-only quote); that of a market order carries neither.
/// Both start with the client order id, the symbol and the side, and end with the quantity, the
/// order type and the response type.
pub proof fn order_body_carries_price_and_time_in_force(
    client_order_id: Seq<char>,
    symbol: Seq<char>,
    side: Side,
    order_type: OrdType,
    time_in_force: TimeInForce,
    price: Seq<char>,
    quantity: Seq<char>,
)
    ensures
        ({
            let body = spec_order_body(client_order_id, symbol, side, order_type, time_in_force, price, quantity);
            let head = "newClientOrderId="@ + client_order_id + "&symbol="@ + symbol + "&side="@ + side_wire(side);
            let tail = "&quantity="@ + quantity + "&type="@ + order_type_wire(order_type) + "&newOrderRespType=RESULT"@;
            let tif = if time_in_force == TimeInForce::GTC {
                "GTC"@
            } else if time_in_force == TimeInForce::GTX {
                "GTX"@
            } else if time_in_force == TimeInForce::FOK {
                "FOK"@
            } else {
                "IOC"@
            };
            &&& body.subrange(0, head.len() as int) == head
            &&& body.subrange(body.len() - tail.len(), body.len() as int) == tail
            &&& order_type == OrdType::Limit ==> body.len() == head.len() + 7 + price.len() + 13 + tif.len() + tail.len()
                && body.subrange(head.len() as int, (head.len() + 7 + price.len() + 13 + tif.len()) as int)
                == "&price="@ + price + "&timeInForce="@ + tif
            &&& order_type != OrdType::Limit ==> body.len() == head.len() + tail.len()
        }),
{
    reveal_strlit("&price=");
    reveal_strlit("&timeInForce=");
    let body = spec_order_body(client_order_id, symbol, side, order_type, time_in_force, price, quantity);
    let head = "newClientOrderId="@ + client_order_id + "&symbol="@ + symbol + "&side="@ + side_wire(side);
    let tail = "&quantity="@ + quantity + "&type="@ + order_type_wire(order_type) + "&newOrderRespType=RESULT"@;
    let mid = if order_type == OrdType::Limit {
        "&price="@ + price + "&timeInForce="@ + time_in_force_wire(time_in_force)
    } else {
        Seq::<char>::empty()
    };
    assert(body =~= head + mid + tail);
    assert(body.subrange(0, head.len() as int) =~= head);
    assert(body.subrange(body.len() - tail.len(), body.len() as int) =~= tail);
    if order_type == OrdType::Limit {
        assert(body.subrange(head.len() as int, (head.len() + mid.len()) as int) =~= mid);
    }
}

} // verus!
