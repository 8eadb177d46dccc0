//! The engine's shared vocabulary: event flags, order sides, statuses, order types and the
//! results of waiting on the engine.
use vstd::prelude::*;

verus! {

pub const BUY_EVENT: u64 = 1 << 29;
pub const SELL_EVENT: u64 = 1 << 28;
pub const DEPTH_EVENT: u64 = 1;
pub const TRADE_EVENT: u64 = 2;
pub const DEPTH_CLEAR_EVENT: u64 = 3;
pub const DEPTH_SNAPSHOT_EVENT: u64 = 4;
pub const DEPTH_BBO_EVENT: u64 = 5;
pub const ADD_ORDER_EVENT: u64 = 10;
pub const CANCEL_ORDER_EVENT: u64 = 11;
pub const MODIFY_ORDER_EVENT: u64 = 12;
pub const FILL_EVENT: u64 = 13;
pub const EXCH_EVENT: u64 = 1 << 31;
pub const LOCAL_EVENT: u64 = 1 << 30;

pub const LOCAL_DEPTH_CLEAR_EVENT: u64 = DEPTH_CLEAR_EVENT | LOCAL_EVENT;
pub const EXCH_DEPTH_CLEAR_EVENT: u64 = DEPTH_CLEAR_EVENT | EXCH_EVENT;
pub const LOCAL_BID_DEPTH_EVENT: u64 = DEPTH_EVENT | BUY_EVENT | LOCAL_EVENT;
pub const LOCAL_ASK_DEPTH_EVENT: u64 = DEPTH_EVENT | SELL_EVENT | LOCAL_EVENT;
pub const LOCAL_BID_DEPTH_CLEAR_EVENT: u64 = DEPTH_CLEAR_EVENT | BUY_EVENT | LOCAL_EVENT;
pub const LOCAL_ASK_DEPTH_CLEAR_EVENT: u64 = DEPTH_CLEAR_EVENT | SELL_EVENT | LOCAL_EVENT;
pub const LOCAL_BID_DEPTH_SNAPSHOT_EVENT: u64 = DEPTH_SNAPSHOT_EVENT | BUY_EVENT | LOCAL_EVENT;
pub const LOCAL_ASK_DEPTH_SNAPSHOT_EVENT: u64 = DEPTH_SNAPSHOT_EVENT | SELL_EVENT | LOCAL_EVENT;
pub const LOCAL_BID_DEPTH_BBO_EVENT: u64 = DEPTH_BBO_EVENT | BUY_EVENT | LOCAL_EVENT;
pub const LOCAL_ASK_DEPTH_BBO_EVENT: u64 = DEPTH_BBO_EVENT | SELL_EVENT | LOCAL_EVENT;
pub const LOCAL_TRADE_EVENT: u64 = TRADE_EVENT | LOCAL_EVENT;
pub const LOCAL_BUY_TRADE_EVENT: u64 = LOCAL_TRADE_EVENT | BUY_EVENT;
pub const LOCAL_SELL_TRADE_EVENT: u64 = LOCAL_TRADE_EVENT | SELL_EVENT;
pub const EXCH_BID_DEPTH_EVENT: u64 = DEPTH_EVENT | BUY_EVENT | EXCH_EVENT;
pub const EXCH_ASK_DEPTH_EVENT: u64 = DEPTH_EVENT | SELL_EVENT | EXCH_EVENT;
pub const EXCH_BID_DEPTH_CLEAR_EVENT: u64 = DEPTH_CLEAR_EVENT | BUY_EVENT | EXCH_EVENT;
pub const EXCH_ASK_DEPTH_CLEAR_EVENT: u64 = DEPTH_CLEAR_EVENT | SELL_EVENT | EXCH_EVENT;
pub const EXCH_BID_DEPTH_SNAPSHOT_EVENT: u64 = DEPTH_SNAPSHOT_EVENT | BUY_EVENT | EXCH_EVENT;
pub const EXCH_ASK_DEPTH_SNAPSHOT_EVENT: u64 = DEPTH_SNAPSHOT_EVENT | SELL_EVENT | EXCH_EVENT;
pub const EXCH_BID_DEPTH_BBO_EVENT: u64 = DEPTH_BBO_EVENT | BUY_EVENT | EXCH_EVENT;
pub const EXCH_ASK_DEPTH_BBO_EVENT: u64 = DEPTH_BBO_EVENT | SELL_EVENT | EXCH_EVENT;
pub const EXCH_TRADE_EVENT: u64 = TRADE_EVENT | EXCH_EVENT;
pub const EXCH_BUY_TRADE_EVENT: u64 = EXCH_TRADE_EVENT | BUY_EVENT;
pub const EXCH_SELL_TRADE_EVENT: u64 = EXCH_TRADE_EVENT | SELL_EVENT;
pub const LOCAL_ADD_ORDER_EVENT: u64 = LOCAL_EVENT | ADD_ORDER_EVENT;
pub const LOCAL_BID_ADD_ORDER_EVENT: u64 = BUY_EVENT | LOCAL_ADD_ORDER_EVENT;
pub const LOCAL_ASK_ADD_ORDER_EVENT: u64 = SELL_EVENT | LOCAL_ADD_ORDER_EVENT;
pub const LOCAL_CANCEL_ORDER_EVENT: u64 = LOCAL_EVENT | CANCEL_ORDER_EVENT;
pub const LOCAL_MODIFY_ORDER_EVENT: u64 = LOCAL_EVENT | MODIFY_ORDER_EVENT;
pub const LOCAL_FILL_EVENT: u64 = LOCAL_EVENT | FILL_EVENT;
pub const EXCH_ADD_ORDER_EVENT: u64 = EXCH_EVENT | ADD_ORDER_EVENT;
pub const EXCH_BID_ADD_ORDER_EVENT: u64 = BUY_EVENT | EXCH_ADD_ORDER_EVENT;
pub const EXCH_ASK_ADD_ORDER_EVENT: u64 = SELL_EVENT | EXCH_ADD_ORDER_EVENT;
pub const EXCH_CANCEL_ORDER_EVENT: u64 = EXCH_EVENT | CANCEL_ORDER_EVENT;
pub const EXCH_MODIFY_ORDER_EVENT: u64 = EXCH_EVENT | MODIFY_ORDER_EVENT;
pub const EXCH_FILL_EVENT: u64 = EXCH_EVENT | FILL_EVENT;
pub const UNTIL_END_OF_DATA: i64 = i64::MAX;

/// An event with flags `ev` is of the kind `event`: it carries every flag of `event`, and, when
/// `event` names a kind in its low byte, the same kind.
pub open spec fn spec_event_is(ev: u64, event: u64) -> bool {
    &&& ev & event == event
    &&& (event & 0xff == 0 || ev & 0xff == event & 0xff)
}

/// `Event::is` on the event's flags.
pub fn event_is(ev: u64, event: u64) -> (r: bool)
    ensures
        r == spec_event_is(ev, event),
{
    if (ev & event) != event {
        return false;
    }
    let event_kind = event & 0xff;
    event_kind == 0 || ev & 0xff == event_kind
}

#[derive(Clone, Copy, Debug, PartialEq, Eq, Structural)]
pub enum ErrorKind {
    ConnectionInterrupted,
    CriticalConnectionError,
    OrderError,
    Custom(i64),
}

pub type OrderId = u64;

#[derive(Clone, Copy, Debug, PartialEq, Eq, Structural)]
pub enum WaitOrderResponse {
    NoWait,
    Any,
    Specified { asset_no: usize, order_id: OrderId },
}

#[derive(Clone, Copy, Debug, PartialEq, Eq, Structural, Hash)]
pub enum Side {
    Buy,
    Sell,
    NoSide,
    Unsupported,
}

#[derive(Clone, Copy, Debug, PartialEq, Eq, Structural, Hash)]
pub enum Status {
    NoStatus,
    New,
    Expired,
    Filled,
    Canceled,
    PartiallyFilled,
    Rejected,
    Replaced,
    Unsupported,
}

#[derive(Clone, Copy, Debug, PartialEq, Eq, Structural, Hash)]
pub enum TimeInForce {
    GTC,
    GTX,
    FOK,
    IOC,
    Unsupported,
}

#[derive(Clone, Copy, Debug, PartialEq, Eq, Structural, Hash)]
pub enum OrdType {
    Limit,
    Market,
    Unsupported,
}

#[derive(Clone, Copy, Debug, PartialEq, Eq, Structural)]
pub enum ElapseResult {
    Completed,
    EndOfData,
    MarketFeed,
    OrderResponse,
}

/// Why building a backtest or a strategy failed.
#[derive(Debug)]
pub enum BuildError {
    BuilderIncomplete(&'static str),
    InvalidArgument(&'static str),
    Error(String),
}

/// An order is active while it rests on the book: new or partially filled.
pub open spec fn spec_is_active(status: Status) -> bool {
    status == Status::New || status == Status::PartiallyFilled
}

/// `Order::active`.
pub fn is_active(status: Status) -> (r: bool)
    ensures
        r == spec_is_active(status),
{
    match status {
        Status::New | Status::PartiallyFilled => true,
        _ => false,
    }
}

/// `Order::pending`: a request on the order is outstanding.
pub fn is_pending(req: Status) -> (r: bool)
    ensures
        r == (req != Status::NoStatus),
{
    match req {
        Status::NoStatus => false,
        _ => true,
    }
}

/// `Order::cancellable`: active, with no request outstanding.
pub fn is_cancellable(status: Status, req: Status) -> (r: bool)
    ensures
        r == (spec_is_active(status) && req == Status::NoStatus),
{
    is_active(status) && !is_pending(req)
}

/// A fill that the account state must see reflected in a position: partially filled or filled.
pub open spec fn spec_is_fill_status(status: Status) -> bool {
    status == Status::PartiallyFilled || status == Status::Filled
}

pub fn is_fill_status(status: Status) -> (r: bool)
    ensures
        r == spec_is_fill_status(status),
{
    match status {
        Status::PartiallyFilled | Status::Filled => true,
        _ => false,
    }
}

/// The wire name of a side (`AsRef<str>`); only buy and sell have one.
pub fn side_name(side: Side) -> (r: Option<&'static str>)
    ensures
        side == Side::Buy ==> r == Some("BUY"),
        side == Side::Sell ==> r == Some("SELL"),
        (side == Side::NoSide || side == Side::Unsupported) ==> r is None,
{
    match side {
        Side::Buy => Some("BUY"),
        Side::Sell => Some("SELL"),
        _ => None,
    }
}

/// The sign of a side as an integer (`AsRef<f64>` gives it as a float); only buy and sell have one.
pub fn side_sign(side: Side) -> (r: Option<i8>)
    ensures
        side == Side::Buy ==> r == Some(1i8),
        side == Side::Sell ==> r == Some(-1i8),
        (side == Side::NoSide || side == Side::Unsupported) ==> r is None,
{
    match side {
        Side::Buy => Some(1),
        Side::Sell => Some(-1),
        _ => None,
    }
}

/// The wire name of a time in force (`AsRef<str>`); `Unsupported` has none.
pub fn time_in_force_name(tif: TimeInForce) -> (r: Option<&'static str>)
    ensures
        tif == TimeInForce::GTC ==> r == Some("GTC"),
        tif == TimeInForce::GTX ==> r == Some("GTX"),
        tif == TimeInForce::FOK ==> r == Some("FOK"),
        tif == TimeInForce::IOC ==> r == Some("IOC"),
        tif == TimeInForce::Unsupported ==> r is None,
{
    match tif {
        TimeInForce::GTC => Some("GTC"),
        TimeInForce::GTX => Some("GTX"),
        TimeInForce::FOK => Some("FOK"),
        TimeInForce::IOC => Some("IOC"),
        TimeInForce::Unsupported => None,
    }
}

/// The wire name of an order type (`AsRef<str>`); `Unsupported` has none.
pub fn order_type_name(ty: OrdType) -> (r: Option<&'static str>)
    ensures
        ty == OrdType::Limit ==> r == Some("LIMIT"),
        ty == OrdType::Market ==> r == Some("MARKET"),
        ty == OrdType::Unsupported ==> r is None,
{
    match ty {
        OrdType::Limit => Some("LIMIT"),
        OrdType::Market => Some("MARKET"),
        OrdType::Unsupported => None,
    }
}

} // verus!
