use apca::account::{ApiError, Get, GetError};
use apca::codec::{encode_doc, parse_doc, Value};
use apca::dispatch::{build_request, evaluate, Method, RequestError};

const GOOD_BODY: &str = r#"{
  "id": "904837e3-3b76-47ec-b432-046db621571b",
  "admin_configurations": {},
  "user_configurations": null,
  "account_number": "PALPACA_123",
  "status": "ACTIVE",
  "crypto_status": "ACTIVE",
  "currency": "USD",
  "buying_power": "0.0",
  "regt_buying_power": "0.0",
  "daytrading_buying_power": "0.0",
  "options_buying_power": "0.0",
  "effective_buying_power": "0.0",
  "non_marginable_buying_power": "0.0",
  "bod_dtbp": "0.0",
  "cash": "1000.00",
  "accrued_fees": "0.0",
  "pending_transfer_in": "0.0",
  "portfolio_value": "5000.00",
  "pattern_day_trader": false,
  "trade_suspended_by_user": false,
  "trading_blocked": false,
  "transfers_blocked": false,
  "account_blocked": false,
  "created_at": "2018-10-01T13:35:25Z",
  "shorting_enabled": true,
  "multiplier": "2",
  "long_market_value": "7000.00",
  "short_market_value": "-3000.00",
  "position_market_value": "4000.00",
  "equity": "5000.00",
  "last_equity": "5000.00",
  "initial_margin": "5000.00",
  "maintenance_margin": "3000.00",
  "last_maintenance_margin": "3000.00",
  "sma": "0.0",
  "daytrade_count": 0,
  "balance_asof": "2018-10-01",
  "crypto_tier": 1,
  "options_trading_level": 2,
  "intraday_adjustments": "0.0",
  "pending_reg_taf_fees": "0.0"
}"#;

#[test]
fn build_request_for_account_retrieval() {
    let (method, path, body) = build_request::<Get>(&());
    assert_eq!(method, Method::Get);
    assert_eq!(path, "/v2/account");
    assert!(body.is_none());
}

#[test]
fn success_status_with_good_body_yields_output() {
    let r = evaluate::<Get>(200, GOOD_BODY.to_string());
    let acc = r.ok().unwrap();
    assert_eq!(acc.currency, "USD");
    assert!(!acc.account_blocked);
    let multiplier = acc.multiplier.to_u64().unwrap();
    assert!(multiplier == 1 || multiplier == 2 || multiplier == 4, "{}", multiplier);
}

#[test]
fn success_status_with_bad_body_is_malformed_not_success() {
    let r = evaluate::<Get>(200, "not json at all".to_string());
    match r {
        Err(RequestError::MalformedBody(status, raw)) => {
            assert_eq!(status, 200);
            assert_eq!(raw, "not json at all");
        },
        _ => panic!("expected the malformed-body error"),
    }
}

#[test]
fn authorization_failure_yields_not_permitted() {
    let body = r#"{"code":40110000,"message":"access key verification failed"}"#;
    let r = evaluate::<Get>(403, body.to_string());
    match r {
        Err(RequestError::Endpoint(GetError::NotPermitted(ApiError::Message {
            code,
            message,
        }))) => {
            assert_eq!(code, Some(40110000));
            assert_eq!(message, "access key verification failed");
        },
        _ => panic!("expected the not-permitted variant"),
    }
}

#[test]
fn authorization_failure_with_unreadable_body_still_not_permitted() {
    let r = evaluate::<Get>(403, "<html>denied</html>".to_string());
    match r {
        Err(RequestError::Endpoint(GetError::NotPermitted(ApiError::Raw(raw)))) => {
            assert_eq!(raw, "<html>denied</html>");
        },
        _ => panic!("expected the not-permitted variant with the raw body"),
    }
}

#[test]
fn undeclared_status_yields_catch_all_with_body_verbatim() {
    let r = evaluate::<Get>(500, "oops".to_string());
    match r {
        Err(RequestError::Endpoint(GetError::Unknown(status, raw))) => {
            assert_eq!(status, 500);
            assert_eq!(raw, "oops");
        },
        _ => panic!("expected the catch-all variant"),
    }
}

#[test]
fn every_status_code_lands_in_exactly_one_outcome() {
    for status in 100u16..=599 {
        let r = evaluate::<Get>(status, "{}".to_string());
        let categories = match r {
            Ok(_) => 1,
            Err(RequestError::MalformedBody(st, _)) => {
                assert_eq!(st, status);
                assert_eq!(status, 200);
                1
            },
            Err(RequestError::Endpoint(GetError::NotPermitted(_))) => {
                assert_eq!(status, 403);
                1
            },
            Err(RequestError::Endpoint(GetError::Unknown(st, _))) => {
                assert_eq!(st, status);
                assert!(status != 200 && status != 403);
                1
            },
            Err(RequestError::Transport(_)) => panic!("the dispatcher never invents transport failures"),
        };
        assert_eq!(categories, 1);
    }
}

#[test]
fn wire_documents_round_trip_through_the_codec() {
    let text = "{ \"a\": \"x\", \"b\": 1.50, \"c\": true, \"d\": null, \"e\": {\"k\": [1, 2]} }";
    let entries = parse_doc(text).unwrap();
    assert_eq!(entries.len(), 5);
    assert!(matches!(entries[3].1, Value::Null));
    match &entries[4].1 {
        Value::Raw(raw) => assert_eq!(raw, "{\"k\": [1, 2]}"),
        _ => panic!("nested objects are kept verbatim"),
    }
    let encoded = encode_doc(&entries);
    assert_eq!(encoded, "{\"a\":\"x\",\"b\":1.50,\"c\":true,\"d\":null,\"e\":{\"k\": [1, 2]}}");
    let again = parse_doc(&encoded).unwrap();
    assert_eq!(again.len(), 5);
    assert_eq!(encode_doc(&again), encoded);
}

#[test]
fn codec_rejects_malformed_documents() {
    for text in ["", "{", "[1]", "{\"a\" 1}", "{\"a\": }", "{\"a\": 1,}", "{\"a\": \"b}"] {
        assert!(parse_doc(text).is_none(), "{text} should not parse");
    }
}
