use apca::account::{Account, Id, Status};
use apca::decimal::Decimal;

const REFERENCE_JSON: &str = r#"{
  "id": "904837e3-3b76-47ec-b432-046db621571b",
  "admin_configurations": {},
  "user_configurations": null,
  "account_number": "PALPACA_123",
  "status": "ACTIVE",
  "crypto_status": "ACTIVE",
  "currency": "USD",
  "buying_power": "0.0",
  "regt_buying_power": "0.0",
  "daytrading_buying_power": "0.0",
  "options_buying_power": "0.0",
  "effective_buying_power": "0.0",
  "non_marginable_buying_power": "0.0",
  "bod_dtbp": "0.0",
  "cash": "1000.00",
  "accrued_fees": "0.0",
  "pending_transfer_in": "0.0",
  "portfolio_value": "5000.00",
  "pattern_day_trader": false,
  "trade_suspended_by_user": false,
  "trading_blocked": false,
  "transfers_blocked": false,
  "account_blocked": false,
  "created_at": "2018-10-01T13:35:25Z",
  "shorting_enabled": true,
  "multiplier": "2",
  "long_market_value": "7000.00",
  "short_market_value": "-3000.00",
  "position_market_value": "4000.00",
  "equity": "5000.00",
  "last_equity": "5000.00",
  "initial_margin": "5000.00",
  "maintenance_margin": "3000.00",
  "last_maintenance_margin": "3000.00",
  "sma": "0.0",
  "daytrade_count": 0,
  "balance_asof": "2018-10-01",
  "crypto_tier": 1,
  "options_trading_level": 2,
  "intraday_adjustments": "0.0",
  "pending_reg_taf_fees": "0.0"
}"#;

#[test]
fn deserialize_serialize_reference_account() {
    let first = Account::from_json(REFERENCE_JSON).unwrap();
    let text = first.to_json();
    let acc = Account::from_json(&text).unwrap();

    let id = Id::parse("904837e3-3b76-47ec-b432-046db621571b").unwrap();
    assert_eq!(acc.id.0, id.0);
    assert_eq!(acc.status, Status::Active);
    assert_eq!(acc.currency, "USD");
    assert!(acc.buying_power.eq_value(&Decimal::from_u64(0)));
    assert!(!acc.trading_blocked);
    assert_eq!(acc.created_at, "2018-10-01T13:35:25Z");
    assert!(acc.market_value_long.eq_value(&Decimal::from_u64(7000)));
    assert!(acc.market_value_short.eq_value(&Decimal::from_i64(-3000)));
    assert!(acc.equity.eq_value(&Decimal::from_u64(5000)));
    assert!(acc.last_equity.eq_value(&Decimal::from_u64(5000)));
    assert!(acc.maintenance_margin.eq_value(&Decimal::from_u64(3000)));
    assert_eq!(acc.daytrade_count, 0);

    assert_eq!(acc.account_number, "PALPACA_123");
    assert_eq!(acc.crypto_status, "ACTIVE");
    assert!(acc.regt_buying_power.eq_value(&Decimal::from_u64(0)));
    assert!(acc.daytrading_buying_power.eq_value(&Decimal::from_u64(0)));
    assert!(acc.options_buying_power.eq_value(&Decimal::from_u64(0)));
    assert!(acc.effective_buying_power.eq_value(&Decimal::from_u64(0)));
    assert!(acc.non_marginable_buying_power.eq_value(&Decimal::from_u64(0)));
    assert!(acc.bod_dtbp.eq_value(&Decimal::from_u64(0)));
    assert!(acc.accrued_fees.eq_value(&Decimal::from_u64(0)));
    assert!(acc.pending_transfer_in.eq_value(&Decimal::from_u64(0)));
    assert!(acc.position_market_value.eq_value(&Decimal::from_u64(4000)));
    assert!(acc.last_maintenance_margin.eq_value(&Decimal::from_u64(3000)));
    assert_eq!(acc.balance_asof, "2018-10-01");
    assert_eq!(acc.crypto_tier, 1);
    assert_eq!(acc.options_trading_level, 2);
    assert!(acc.intraday_adjustments.eq_value(&Decimal::from_u64(0)));
    assert!(acc.pending_reg_taf_fees.eq_value(&Decimal::from_u64(0)));
}

#[test]
fn reference_account_further_fields() {
    let acc = Account::from_json(REFERENCE_JSON).unwrap();
    assert!(acc.cash.eq_value(&Decimal::from_u64(1000)));
    assert!(acc.portfolio_value.eq_value(&Decimal::from_u64(5000)));
    assert!(acc.multiplier.eq_value(&Decimal::from_u64(2)));
    assert_eq!(acc.multiplier.to_u64(), Some(2));
    assert!(!acc.day_trader);
    assert!(!acc.trading_suspended);
    assert!(!acc.transfers_blocked);
    assert!(!acc.account_blocked);
    assert!(acc.shorting_enabled);
    assert!(acc.initial_margin.eq_value(&Decimal::from_u64(5000)));
    assert!(acc.sma.eq_value(&Decimal::from_u64(0)));
    assert!(acc.user_configurations.is_none());
}

#[test]
fn unrecognized_status_tag_decodes_to_unknown() {
    let json = REFERENCE_JSON.replace("\"status\": \"ACTIVE\"", "\"status\": \"SOMETHING_NEW\"");
    let acc = Account::from_json(&json).unwrap();
    assert_eq!(acc.status, Status::Unknown);
    assert_eq!(acc.status.encode(), "unknown");
}

#[test]
fn status_tags_decode_to_their_variants() {
    assert_eq!(Status::parse("ONBOARDING"), Status::Onboarding);
    assert_eq!(Status::parse("SUBMISSION_FAILED"), Status::SubmissionFailed);
    assert_eq!(Status::parse("SUBMITTED"), Status::Submitted);
    assert_eq!(Status::parse("ACCOUNT_UPDATED"), Status::Updating);
    assert_eq!(Status::parse("APPROVAL_PENDING"), Status::ApprovalPending);
    assert_eq!(Status::parse("ACTIVE"), Status::Active);
    assert_eq!(Status::parse("REJECTED"), Status::Rejected);
    assert_eq!(Status::parse("unknown"), Status::Unknown);
}

#[test]
fn omitted_optional_key_yields_absent_marker() {
    let json = REFERENCE_JSON.replace("  \"user_configurations\": null,\n", "");
    let acc = Account::from_json(&json).unwrap();
    assert!(acc.user_configurations.is_none());
}

#[test]
fn omitted_defaulted_key_yields_the_default() {
    let json = REFERENCE_JSON.replace("  \"pending_transfer_in\": \"0.0\",\n", "");
    let acc = Account::from_json(&json).unwrap();
    assert!(acc.pending_transfer_in.eq_value(&Decimal::from_u64(0)));
    assert_eq!(acc.pending_transfer_in.encode(), "0");
}

#[test]
fn omitted_required_key_fails_decode() {
    let json = REFERENCE_JSON.replace("  \"cash\": \"1000.00\",\n", "");
    assert!(Account::from_json(&json).is_none());
}

#[test]
fn mistyped_required_key_fails_decode() {
    let json = REFERENCE_JSON.replace("\"currency\": \"USD\"", "\"currency\": 7");
    assert!(Account::from_json(&json).is_none());
}

#[test]
fn id_text_accepts_uppercase_and_canonicalizes() {
    let id = Id::parse("904837E3-3B76-47EC-B432-046DB621571B").unwrap();
    assert_eq!(id.0, "904837e3-3b76-47ec-b432-046db621571b");
    assert!(Id::parse("904837e33b7647ecb432046db621571b").is_none());
    assert!(Id::parse("904837e3-3b76-47ec-b432-046db62157").is_none());
    assert!(Id::parse("904837g3-3b76-47ec-b432-046db621571b").is_none());
}

#[test]
fn invalid_timestamp_fails_decode() {
    let json = REFERENCE_JSON
        .replace("\"created_at\": \"2018-10-01T13:35:25Z\"", "\"created_at\": \"2018-13-01T13:35:25Z\"");
    assert!(Account::from_json(&json).is_none());
    let json = REFERENCE_JSON
        .replace("\"created_at\": \"2018-10-01T13:35:25Z\"", "\"created_at\": \"2018-02-29T13:35:25Z\"");
    assert!(Account::from_json(&json).is_none());
    let json = REFERENCE_JSON
        .replace("\"created_at\": \"2018-10-01T13:35:25Z\"", "\"created_at\": \"2020-02-29T23:59:59.123Z\"");
    let acc = Account::from_json(&json).unwrap();
    assert_eq!(acc.created_at, "2020-02-29T23:59:59.123Z");
}

