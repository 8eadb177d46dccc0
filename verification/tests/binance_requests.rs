use hftlive::binance::{
    open_orders_outcome, order_response_outcome, query_order_outcome, side_str, BinanceFuturesError,
    OrderPayload,
};
use hftlive::types::Side;

#[test]
fn unsupported_order_side_is_rejected_without_panicking() {
    assert!(side_str(Side::NoSide).is_err());
    assert!(side_str(Side::Unsupported).is_err());
}

#[test]
fn unknown_exchange_submit_errors_are_ambiguous_by_default() {
    let error = BinanceFuturesError::OrderError {
        code: -1099,
        msg: "execution status unknown".to_string(),
    };
    assert!(error.submission_is_ambiguous());
}

#[test]
fn known_exchange_rejections_are_definitive() {
    for code in [-5022, -2027, -2019, -1015, -1008] {
        let error = BinanceFuturesError::OrderError {
            code,
            msg: "request rejected".to_string(),
        };
        assert!(!error.submission_is_ambiguous(), "code {code}");
    }
}

#[test]
fn order_answers_of_unknown_shape_are_ambiguous_errors() {
    let unknown = order_response_outcome::<u32>(OrderPayload::Unrecognized);
    assert!(matches!(
        unknown,
        Err(BinanceFuturesError::OrderError { code: -1_000_001, ref msg })
            if msg == "unrecognized Binance order response schema"
    ));
    assert!(matches!(order_response_outcome(OrderPayload::Decoded(7u32)), Ok(7)));
    assert!(matches!(
        order_response_outcome::<u32>(OrderPayload::Error { code: -2011, msg: "Unknown order sent.".to_string() }),
        Err(BinanceFuturesError::OrderError { code: -2011, .. })
    ));
}

#[test]
fn query_answers_map_unknown_orders_and_unreadable_payloads_to_none() {
    assert!(matches!(
        query_order_outcome::<u32>(OrderPayload::Error { code: -2013, msg: "Order does not exist.".to_string() }),
        Ok(None)
    ));
    assert!(matches!(query_order_outcome::<u32>(OrderPayload::Null), Ok(None)));
    assert!(matches!(query_order_outcome::<u32>(OrderPayload::Unrecognized), Ok(None)));
    assert!(matches!(query_order_outcome(OrderPayload::Decoded(3u32)), Ok(Some(3))));
    assert!(matches!(
        query_order_outcome::<u32>(OrderPayload::Error { code: -1021, msg: "late".to_string() }),
        Err(BinanceFuturesError::OrderError { code: -1021, .. })
    ));
}

#[test]
fn open_orders_answers_that_cannot_be_read_are_invalid_account_state() {
    assert!(matches!(
        open_orders_outcome::<u32>(OrderPayload::Unrecognized),
        Err(BinanceFuturesError::InvalidAccountState)
    ));
    assert!(matches!(
        open_orders_outcome::<u32>(OrderPayload::Error { code: -2015, msg: "Rejected".to_string() }),
        Err(BinanceFuturesError::OrderError { code: -2015, .. })
    ));
    assert_eq!(open_orders_outcome(OrderPayload::Decoded(vec![1u32, 2])).unwrap(), vec![1, 2]);
}
