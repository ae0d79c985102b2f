//! The account resource: the one concrete entity this crate decodes and
//! encodes, and the operation that retrieves it.

use vstd::prelude::*;

use crate::codec::Entries;
use crate::codec::ValModel;
use crate::codec::Value;
use crate::codec::clone_value;
use crate::codec::doc_wf;
use crate::codec::lookup_value;
use crate::codec::model_of;
use crate::codec::plain_text;
use crate::codec::spec_lookup;
use crate::codec::str_eq;
use crate::codec::val_wf;
use crate::decimal::DecModel;
use crate::decimal::Decimal;
use crate::decimal::mant;
use crate::decimal::spec_encode;
use crate::decimal::spec_parse_decimal;

verus! {

/// One of the sixteen lowercase hexadecimal digit characters.
pub open spec fn is_hex_lower(c: char) -> bool {
    crate::decimal::is_digit_char(c) || c == 'a' || c == 'b' || c == 'c' || c == 'd' || c == 'e'
        || c == 'f'
}

/// One of the six uppercase hexadecimal letters.
pub open spec fn is_hex_upper(c: char) -> bool {
    c == 'A' || c == 'B' || c == 'C' || c == 'D' || c == 'E' || c == 'F'
}

/// The lowercase form of a hexadecimal character; anything else is kept.
pub open spec fn hex_lower(c: char) -> char {
    if c == 'A' {
        'a'
    } else if c == 'B' {
        'b'
    } else if c == 'C' {
        'c'
    } else if c == 'D' {
        'd'
    } else if c == 'E' {
        'e'
    } else if c == 'F' {
        'f'
    } else {
        c
    }
}

/// The textual shape of an identifier: thirty-six characters, hyphens at
/// the four fixed positions, hexadecimal digits everywhere else.
pub open spec fn id_shape(s: Seq<char>) -> bool {
    &&& s.len() == 36
    &&& forall|i: int|
        0 <= i < 36 ==> if i == 8 || i == 13 || i == 18 || i == 23 {
            s[i] == '-'
        } else {
            is_hex_lower(#[trigger] s[i]) || is_hex_upper(s[i])
        }
}

/// Canonical identifier text: the shape above, all lowercase.
pub open spec fn id_canon(s: Seq<char>) -> bool {
    id_shape(s) && forall|i: int| 0 <= i < s.len() ==> !is_hex_upper(#[trigger] s[i])
}

/// What identifier text decodes to: its canonical lowercase form.
pub open spec fn spec_parse_id(s: Seq<char>) -> Option<Seq<char>> {
    if id_shape(s) {
        Some(s.map_values(|c: char| hex_lower(c)))
    } else {
        None
    }
}

/// An account identifier, held in its canonical textual form.
pub struct Id(pub String);

impl Id {
    /// The text is a canonical identifier.
    pub open spec fn wf(self) -> bool {
        id_canon(self.0@)
    }

    /// Decode identifier text, folding it to lowercase; exactly
    /// [`spec_parse_id`].
    #[verifier::loop_isolation(false)]
    pub fn parse(s: &str) -> (r: Option<Id>)
        ensures
            match r {
                Some(id) => spec_parse_id(s@) == Some(id.0@) && id.wf(),
                None => spec_parse_id(s@) is None,
            },
    {
        let n = s.unicode_len();
        if n != 36 {
            proof {
                assert(!id_shape(s@));
            }
            return None;
        }
        let mut out: Vec<char> = Vec::new();
        let mut i: usize = 0;
        while i < 36
            invariant
                i <= 36,
                out@.len() == i,
                forall|t: int|
                    0 <= t < i ==> if t == 8 || t == 13 || t == 18 || t == 23 {
                        s@[t] == '-'
                    } else {
                        is_hex_lower(#[trigger] s@[t]) || is_hex_upper(s@[t])
                    },
                forall|t: int| 0 <= t < i ==> out@[t] == hex_lower(#[trigger] s@[t]),
                forall|t: int| 0 <= t < i ==> !is_hex_upper(#[trigger] out@[t]),
            decreases 36 - i,
        {
            let c = s.get_char(i);
            if i == 8 || i == 13 || i == 18 || i == 23 {
                if c != '-' {
                    proof {
                        assert(!id_shape(s@));
                    }
                    return None;
                }
                out.push('-');
            } else {
                let lc = hex_lower_char(c);
                if lc == 'x' {
                    proof {
                        assert(!id_shape(s@));
                    }
                    return None;
                }
                out.push(lc);
            }
            i += 1;
        }
        let text = crate::decimal::chars_to_string(&out);
        proof {
            assert(id_shape(s@));
            assert(out@ =~= s@.map_values(|c: char| hex_lower(c)));
            assert(id_shape(out@));
        }
        Some(Id(text))
    }

    /// The canonical text of this identifier.
    pub fn encode(&self) -> (r: String)
        ensures
            r@ == self.0@,
    {
        self.0.as_str().to_owned()
    }
}

/// The lowercase form of a hexadecimal character, or `'x'` for anything
/// that is not hexadecimal.
fn hex_lower_char(c: char) -> (r: char)
    ensures
        (is_hex_lower(c) || is_hex_upper(c)) ==> r == hex_lower(c),
        !(is_hex_lower(c) || is_hex_upper(c)) ==> r == 'x',
        (r != 'x') == (is_hex_lower(c) || is_hex_upper(c)),
{
    if c == '0' || c == '1' || c == '2' || c == '3' || c == '4' || c == '5' || c == '6' || c == '7'
        || c == '8' || c == '9' || c == 'a' || c == 'b' || c == 'c' || c == 'd' || c == 'e' || c
        == 'f' {
        c
    } else if c == 'A' {
        'a'
    } else if c == 'B' {
        'b'
    } else if c == 'C' {
        'c'
    } else if c == 'D' {
        'd'
    } else if c == 'E' {
        'e'
    } else if c == 'F' {
        'f'
    } else {
        'x'
    }
}

/// Law: decoding an identifier, re-encoding its canonical text and
/// decoding again gives the same identifier.
pub proof fn lemma_id_round_trip(s: Seq<char>, t: Seq<char>)
    requires
        spec_parse_id(s) == Some(t),
    ensures
        spec_parse_id(t) == Some(t),
{
    assert(id_shape(s));
    assert(t == s.map_values(|c: char| hex_lower(c)));
    assert forall|i: int| 0 <= i < 36 implies (if i == 8 || i == 13 || i == 18 || i == 23 {
        t[i] == '-'
    } else {
        is_hex_lower(#[trigger] t[i]) || is_hex_upper(t[i])
    }) by {
        assert(t[i] == hex_lower(s[i]));
    }
    assert(id_shape(t));
    assert forall|i: int| 0 <= i < t.len() implies t[i] == hex_lower(#[trigger] t[i]) by {
        assert(t[i] == hex_lower(s[i]));
    }
    assert(t.map_values(|c: char| hex_lower(c)) =~= t);
}

/// The states an account can be in. The wire may introduce new states at
/// any time; those decode to [`Status::Unknown`] instead of failing.
#[derive(Clone, Copy, Debug, PartialEq, Eq, Structural)]
pub enum Status {
    /// The account is onboarding.
    Onboarding,
    /// The account application submission failed for some reason.
    SubmissionFailed,
    /// The account application has been submitted for review.
    Submitted,
    /// The account information is being updated.
    Updating,
    /// The final account approval is pending.
    ApprovalPending,
    /// The account is active for trading.
    Active,
    /// The account application has been rejected.
    Rejected,
    /// Any other account status, kept rather than failing the decode.
    Unknown,
}

/// The status named by a wire tag; every unrecognized tag is `Unknown`.
pub open spec fn status_of_tag(t: Seq<char>) -> Status {
    if t == "ONBOARDING"@ {
        Status::Onboarding
    } else if t == "SUBMISSION_FAILED"@ {
        Status::SubmissionFailed
    } else if t == "SUBMITTED"@ {
        Status::Submitted
    } else if t == "ACCOUNT_UPDATED"@ {
        Status::Updating
    } else if t == "APPROVAL_PENDING"@ {
        Status::ApprovalPending
    } else if t == "ACTIVE"@ {
        Status::Active
    } else if t == "REJECTED"@ {
        Status::Rejected
    } else {
        Status::Unknown
    }
}

/// The wire tag emitted for a status; the unknown state has its own tag,
/// so re-encoding is total (an unrecognized incoming tag is not kept).
pub open spec fn status_tag(st: Status) -> Seq<char> {
    match st {
        Status::Onboarding => "ONBOARDING"@,
        Status::SubmissionFailed => "SUBMISSION_FAILED"@,
        Status::Submitted => "SUBMITTED"@,
        Status::Updating => "ACCOUNT_UPDATED"@,
        Status::ApprovalPending => "APPROVAL_PENDING"@,
        Status::Active => "ACTIVE"@,
        Status::Rejected => "REJECTED"@,
        Status::Unknown => "unknown"@,
    }
}

impl Status {
    /// Decode a wire tag; total, exactly [`status_of_tag`].
    pub fn parse(tag: &str) -> (r: Status)
        ensures
            r == status_of_tag(tag@),
    {
        if str_eq(tag, "ONBOARDING") {
            Status::Onboarding
        } else if str_eq(tag, "SUBMISSION_FAILED") {
            Status::SubmissionFailed
        } else if str_eq(tag, "SUBMITTED") {
            Status::Submitted
        } else if str_eq(tag, "ACCOUNT_UPDATED") {
            Status::Updating
        } else if str_eq(tag, "APPROVAL_PENDING") {
            Status::ApprovalPending
        } else if str_eq(tag, "ACTIVE") {
            Status::Active
        } else if str_eq(tag, "REJECTED") {
            Status::Rejected
        } else {
            Status::Unknown
        }
    }

    /// The wire tag of this status, exactly [`status_tag`].
    pub fn encode(&self) -> (r: String)
        ensures
            r@ == status_tag(*self),
    {
        match self {
            Status::Onboarding => "ONBOARDING".to_owned(),
            Status::SubmissionFailed => "SUBMISSION_FAILED".to_owned(),
            Status::Submitted => "SUBMITTED".to_owned(),
            Status::Updating => "ACCOUNT_UPDATED".to_owned(),
            Status::ApprovalPending => "APPROVAL_PENDING".to_owned(),
            Status::Active => "ACTIVE".to_owned(),
            Status::Rejected => "REJECTED".to_owned(),
            Status::Unknown => "unknown".to_owned(),
        }
    }
}

/// Law: a tag that names no known state decodes to the unknown variant
/// rather than failing the record decode.
pub proof fn lemma_status_fallback(t: Seq<char>)
    requires
        t != "ONBOARDING"@,
        t != "SUBMISSION_FAILED"@,
        t != "SUBMITTED"@,
        t != "ACCOUNT_UPDATED"@,
        t != "APPROVAL_PENDING"@,
        t != "ACTIVE"@,
        t != "REJECTED"@,
    ensures
        status_of_tag(t) == Status::Unknown,
{
}


/// A decimal read from a member: a bare number, or a number in a string.
pub open spec fn dec_of(v: ValModel) -> Option<DecModel> {
    match v {
        ValModel::Num(d) => Some(d),
        ValModel::Str(t) => spec_parse_decimal(t),
        _ => None,
    }
}

/// A required decimal member.
pub open spec fn dec_field(m: Seq<(Seq<char>, ValModel)>, k: Seq<char>) -> Option<DecModel> {
    match spec_lookup(m, k) {
        Some(v) => dec_of(v),
        None => None,
    }
}

/// A decimal member with a declared default: zero when the key is absent
/// (not when it is present but null).
pub open spec fn dec_default_field(m: Seq<(Seq<char>, ValModel)>, k: Seq<char>) -> Option<
    DecModel,
> {
    match spec_lookup(m, k) {
        Some(v) => dec_of(v),
        None => Some(DecModel { neg: false, digits: seq![0u8], scale: 0 }),
    }
}

/// A required string member.
pub open spec fn str_field(m: Seq<(Seq<char>, ValModel)>, k: Seq<char>) -> Option<Seq<char>> {
    match spec_lookup(m, k) {
        Some(ValModel::Str(t)) => Some(t),
        _ => None,
    }
}

/// A required boolean member.
pub open spec fn bool_field(m: Seq<(Seq<char>, ValModel)>, k: Seq<char>) -> Option<bool> {
    match spec_lookup(m, k) {
        Some(ValModel::Bool(b)) => Some(b),
        _ => None,
    }
}

/// A required unsigned counter member: a bare non-negative whole number.
pub open spec fn u64_field(m: Seq<(Seq<char>, ValModel)>, k: Seq<char>) -> Option<u64> {
    match spec_lookup(m, k) {
        Some(ValModel::Num(d)) => if !d.neg && d.scale == 0 && mant(d.digits)
            <= 0xffff_ffff_ffff_ffff {
            Some(mant(d.digits) as u64)
        } else {
            None
        },
        _ => None,
    }
}

/// A required identifier member.
pub open spec fn id_field(m: Seq<(Seq<char>, ValModel)>, k: Seq<char>) -> Option<Seq<char>> {
    match str_field(m, k) {
        Some(t) => spec_parse_id(t),
        None => None,
    }
}

/// A required status member; the tag decodes totally.
pub open spec fn status_field(m: Seq<(Seq<char>, ValModel)>, k: Seq<char>) -> Option<Status> {
    match str_field(m, k) {
        Some(t) => Some(status_of_tag(t)),
        None => None,
    }
}

/// A required timestamp member: a string holding an RFC 3339 UTC
/// timestamp.
pub open spec fn ts_field(m: Seq<(Seq<char>, ValModel)>, k: Seq<char>) -> Option<Seq<char>> {
    match str_field(m, k) {
        Some(t) => if timestamp_utc(t) {
            Some(t)
        } else {
            None
        },
        None => None,
    }
}

/// An optional member: the explicit absent marker when the key is missing
/// or null.
pub open spec fn opt_field(m: Seq<(Seq<char>, ValModel)>, k: Seq<char>) -> Option<ValModel> {
    match spec_lookup(m, k) {
        None => None,
        Some(ValModel::Null) => None,
        Some(v) => Some(v),
    }
}

fn get_dec(entries: &Entries, key: &str) -> (r: Option<Decimal>)
    requires
        doc_wf(model_of(entries@)),
    ensures
        match r {
            Some(d) => dec_field(model_of(entries@), key@) == Some(d@) && d.wf(),
            None => dec_field(model_of(entries@), key@) is None,
        },
{
    proof {
        crate::codec::lemma_lookup_wf(model_of(entries@), key@);
    }
    match lookup_value(entries, key) {
        Some(Value::Num(d)) => Some(d),
        Some(Value::Str(t)) => crate::decimal::parse_decimal(t.as_str()),
        Some(_) => None,
        None => None,
    }
}

fn get_dec_default(entries: &Entries, key: &str) -> (r: Option<Decimal>)
    requires
        doc_wf(model_of(entries@)),
    ensures
        match r {
            Some(d) => dec_default_field(model_of(entries@), key@) == Some(d@) && d.wf(),
            None => dec_default_field(model_of(entries@), key@) is None,
        },
{
    proof {
        crate::codec::lemma_lookup_wf(model_of(entries@), key@);
    }
    match lookup_value(entries, key) {
        Some(Value::Num(d)) => Some(d),
        Some(Value::Str(t)) => crate::decimal::parse_decimal(t.as_str()),
        Some(_) => None,
        None => Some(Decimal::zero_exact()),
    }
}

fn get_str(entries: &Entries, key: &str) -> (r: Option<String>)
    requires
        doc_wf(model_of(entries@)),
    ensures
        match r {
            Some(t) => str_field(model_of(entries@), key@) == Some(t@) && plain_text(t@),
            None => str_field(model_of(entries@), key@) is None,
        },
{
    proof {
        crate::codec::lemma_lookup_wf(model_of(entries@), key@);
    }
    match lookup_value(entries, key) {
        Some(Value::Str(t)) => Some(t),
        Some(_) => None,
        None => None,
    }
}

fn get_bool(entries: &Entries, key: &str) -> (r: Option<bool>)
    requires
        doc_wf(model_of(entries@)),
    ensures
        r == bool_field(model_of(entries@), key@),
{
    match lookup_value(entries, key) {
        Some(Value::Bool(b)) => Some(b),
        Some(_) => None,
        None => None,
    }
}

fn get_u64(entries: &Entries, key: &str) -> (r: Option<u64>)
    requires
        doc_wf(model_of(entries@)),
    ensures
        r == u64_field(model_of(entries@), key@),
{
    proof {
        crate::codec::lemma_lookup_wf(model_of(entries@), key@);
    }
    match lookup_value(entries, key) {
        Some(Value::Num(d)) => {
            if !d.is_negative() && d.scale() == 0 {
                proof {
                    assert(d@.digits.skip(0) =~= d@.digits);
                }
                d.to_u64()
            } else {
                None
            }
        },
        Some(_) => None,
        None => None,
    }
}

fn get_ts(entries: &Entries, key: &str) -> (r: Option<String>)
    requires
        doc_wf(model_of(entries@)),
    ensures
        match r {
            Some(t) => ts_field(model_of(entries@), key@) == Some(t@) && plain_text(t@)
                && timestamp_utc(t@),
            None => ts_field(model_of(entries@), key@) is None,
        },
{
    match get_str(entries, key) {
        Some(t) => {
            if check_timestamp(t.as_str()) {
                Some(t)
            } else {
                None
            }
        },
        None => None,
    }
}

fn get_id(entries: &Entries, key: &str) -> (r: Option<Id>)
    requires
        doc_wf(model_of(entries@)),
    ensures
        match r {
            Some(id) => id_field(model_of(entries@), key@) == Some(id.0@) && id.wf(),
            None => id_field(model_of(entries@), key@) is None,
        },
{
    match get_str(entries, key) {
        Some(t) => Id::parse(t.as_str()),
        None => None,
    }
}

fn get_status(entries: &Entries, key: &str) -> (r: Option<Status>)
    requires
        doc_wf(model_of(entries@)),
    ensures
        r == status_field(model_of(entries@), key@),
{
    match get_str(entries, key) {
        Some(t) => Some(Status::parse(t.as_str())),
        None => None,
    }
}

fn get_value(entries: &Entries, key: &str) -> (r: Option<Value>)
    requires
        doc_wf(model_of(entries@)),
    ensures
        match r {
            Some(v) => spec_lookup(model_of(entries@), key@) == Some(v@) && val_wf(v@),
            None => spec_lookup(model_of(entries@), key@) is None,
        },
{
    proof {
        crate::codec::lemma_lookup_wf(model_of(entries@), key@);
    }
    lookup_value(entries, key)
}

fn get_opt(entries: &Entries, key: &str) -> (r: Option<Value>)
    requires
        doc_wf(model_of(entries@)),
    ensures
        match r {
            Some(v) => opt_field(model_of(entries@), key@) == Some(v@) && val_wf(v@),
            None => opt_field(model_of(entries@), key@) is None,
        },
{
    proof {
        crate::codec::lemma_lookup_wf(model_of(entries@), key@);
    }
    match lookup_value(entries, key) {
        Some(Value::Null) => None,
        Some(v) => Some(v),
        None => None,
    }
}

/// The account record, decoded from and encoded to the wire document of
/// the account-retrieval operation.
pub struct Account {
    /// Account identifier.
    pub id: Id,
    /// Admin configurations for the account, carried through verbatim.
    pub admin_configurations: Value,
    /// User configurations for the account, when present.
    pub user_configurations: Option<Value>,
    /// Account number.
    pub account_number: String,
    /// The account's status.
    pub status: Status,
    /// The account's crypto status.
    pub crypto_status: String,
    /// The currency the account uses.
    pub currency: String,
    /// Cash balance.
    pub cash: Decimal,
    /// Portfolio value (equity plus cash).
    pub portfolio_value: Decimal,
    /// Whether the account is flagged as a pattern day trader.
    pub day_trader: bool,
    /// Whether the user has suspended trading operations.
    pub trading_suspended: bool,
    /// Whether the account may not place orders.
    pub trading_blocked: bool,
    /// Whether the account may not request money transfers.
    pub transfers_blocked: bool,
    /// Whether account activity by the user is prohibited.
    pub account_blocked: bool,
    /// Timestamp this account was created at, in RFC 3339 text.
    pub created_at: String,
    /// Whether the account is permitted to short.
    pub shorting_enabled: bool,
    /// Mark-to-market value of all long positions.
    pub market_value_long: Decimal,
    /// Mark-to-market value of all short positions.
    pub market_value_short: Decimal,
    /// The sum of cash and the two market values.
    pub equity: Decimal,
    /// Equity as of the previous trading day.
    pub last_equity: Decimal,
    /// Buying power multiplier (margin classification).
    pub multiplier: Decimal,
    /// The currently available buying power.
    pub buying_power: Decimal,
    /// Regulatory buying power.
    pub regt_buying_power: Decimal,
    /// Day trading buying power.
    pub daytrading_buying_power: Decimal,
    /// Options buying power.
    pub options_buying_power: Decimal,
    /// Effective buying power.
    pub effective_buying_power: Decimal,
    /// Non-marginable buying power.
    pub non_marginable_buying_power: Decimal,
    /// Beginning-of-day day trading buying power.
    pub bod_dtbp: Decimal,
    /// Accrued fees.
    pub accrued_fees: Decimal,
    /// Pending transfer in; zero when the wire omits it.
    pub pending_transfer_in: Decimal,
    /// Position market value.
    pub position_market_value: Decimal,
    /// Initial margin requirement.
    pub initial_margin: Decimal,
    /// Maintenance margin requirement.
    pub maintenance_margin: Decimal,
    /// Last maintenance margin.
    pub last_maintenance_margin: Decimal,
    /// Special memorandum account balance.
    pub sma: Decimal,
    /// Day trades made in the last five trading days.
    pub daytrade_count: u64,
    /// Balance as-of date.
    pub balance_asof: String,
    /// Crypto tier.
    pub crypto_tier: u64,
    /// Options trading level.
    pub options_trading_level: u64,
    /// Intraday adjustments.
    pub intraday_adjustments: Decimal,
    /// Pending regulatory TAF fees.
    pub pending_reg_taf_fees: Decimal,
    /// The record is open to extension; this field keeps construction explicit.
    pub _non_exhaustive: (),
}

/// What a decoded account says of the document it was decoded from: each
/// attribute equals its wire member read under that member's field rule.
pub open spec fn account_obeys(m: Seq<(Seq<char>, ValModel)>, a: Account) -> bool {
    &&& id_field(m, "id"@) == Some(a.id.0@)
        &&& spec_lookup(m, "admin_configurations"@) == Some(a.admin_configurations@)
        &&& opt_field(m, "user_configurations"@) == (match a.user_configurations { Some(v) => Some(v@), None => None::<ValModel> })
        &&& str_field(m, "account_number"@) == Some(a.account_number@)
        &&& status_field(m, "status"@) == Some(a.status)
        &&& str_field(m, "crypto_status"@) == Some(a.crypto_status@)
        &&& str_field(m, "currency"@) == Some(a.currency@)
        &&& dec_field(m, "cash"@) == Some(a.cash@)
        &&& dec_field(m, "portfolio_value"@) == Some(a.portfolio_value@)
        &&& bool_field(m, "pattern_day_trader"@) == Some(a.day_trader)
        &&& bool_field(m, "trade_suspended_by_user"@) == Some(a.trading_suspended)
        &&& bool_field(m, "trading_blocked"@) == Some(a.trading_blocked)
        &&& bool_field(m, "transfers_blocked"@) == Some(a.transfers_blocked)
        &&& bool_field(m, "account_blocked"@) == Some(a.account_blocked)
        &&& ts_field(m, "created_at"@) == Some(a.created_at@)
        &&& bool_field(m, "shorting_enabled"@) == Some(a.shorting_enabled)
        &&& dec_field(m, "long_market_value"@) == Some(a.market_value_long@)
        &&& dec_field(m, "short_market_value"@) == Some(a.market_value_short@)
        &&& dec_field(m, "equity"@) == Some(a.equity@)
        &&& dec_field(m, "last_equity"@) == Some(a.last_equity@)
        &&& dec_field(m, "multiplier"@) == Some(a.multiplier@)
        &&& dec_field(m, "buying_power"@) == Some(a.buying_power@)
        &&& dec_field(m, "regt_buying_power"@) == Some(a.regt_buying_power@)
        &&& dec_field(m, "daytrading_buying_power"@) == Some(a.daytrading_buying_power@)
        &&& dec_field(m, "options_buying_power"@) == Some(a.options_buying_power@)
        &&& dec_field(m, "effective_buying_power"@) == Some(a.effective_buying_power@)
        &&& dec_field(m, "non_marginable_buying_power"@) == Some(a.non_marginable_buying_power@)
        &&& dec_field(m, "bod_dtbp"@) == Some(a.bod_dtbp@)
        &&& dec_field(m, "accrued_fees"@) == Some(a.accrued_fees@)
        &&& dec_default_field(m, "pending_transfer_in"@) == Some(a.pending_transfer_in@)
        &&& dec_field(m, "position_market_value"@) == Some(a.position_market_value@)
        &&& dec_field(m, "initial_margin"@) == Some(a.initial_margin@)
        &&& dec_field(m, "maintenance_margin"@) == Some(a.maintenance_margin@)
        &&& dec_field(m, "last_maintenance_margin"@) == Some(a.last_maintenance_margin@)
        &&& dec_field(m, "sma"@) == Some(a.sma@)
        &&& u64_field(m, "daytrade_count"@) == Some(a.daytrade_count)
        &&& str_field(m, "balance_asof"@) == Some(a.balance_asof@)
        &&& u64_field(m, "crypto_tier"@) == Some(a.crypto_tier)
        &&& u64_field(m, "options_trading_level"@) == Some(a.options_trading_level)
        &&& dec_field(m, "intraday_adjustments"@) == Some(a.intraday_adjustments@)
        &&& dec_field(m, "pending_reg_taf_fees"@) == Some(a.pending_reg_taf_fees@)
}

/// Whether a document decodes as an account: every required member is
/// present and well typed.
pub open spec fn account_decodable(m: Seq<(Seq<char>, ValModel)>) -> bool {
    &&& id_field(m, "id"@) is Some
        &&& spec_lookup(m, "admin_configurations"@) is Some
        &&& str_field(m, "account_number"@) is Some
        &&& status_field(m, "status"@) is Some
        &&& str_field(m, "crypto_status"@) is Some
        &&& str_field(m, "currency"@) is Some
        &&& dec_field(m, "cash"@) is Some
        &&& dec_field(m, "portfolio_value"@) is Some
        &&& bool_field(m, "pattern_day_trader"@) is Some
        &&& bool_field(m, "trade_suspended_by_user"@) is Some
        &&& bool_field(m, "trading_blocked"@) is Some
        &&& bool_field(m, "transfers_blocked"@) is Some
        &&& bool_field(m, "account_blocked"@) is Some
        &&& ts_field(m, "created_at"@) is Some
        &&& bool_field(m, "shorting_enabled"@) is Some
        &&& dec_field(m, "long_market_value"@) is Some
        &&& dec_field(m, "short_market_value"@) is Some
        &&& dec_field(m, "equity"@) is Some
        &&& dec_field(m, "last_equity"@) is Some
        &&& dec_field(m, "multiplier"@) is Some
        &&& dec_field(m, "buying_power"@) is Some
        &&& dec_field(m, "regt_buying_power"@) is Some
        &&& dec_field(m, "daytrading_buying_power"@) is Some
        &&& dec_field(m, "options_buying_power"@) is Some
        &&& dec_field(m, "effective_buying_power"@) is Some
        &&& dec_field(m, "non_marginable_buying_power"@) is Some
        &&& dec_field(m, "bod_dtbp"@) is Some
        &&& dec_field(m, "accrued_fees"@) is Some
        &&& dec_default_field(m, "pending_transfer_in"@) is Some
        &&& dec_field(m, "position_market_value"@) is Some
        &&& dec_field(m, "initial_margin"@) is Some
        &&& dec_field(m, "maintenance_margin"@) is Some
        &&& dec_field(m, "last_maintenance_margin"@) is Some
        &&& dec_field(m, "sma"@) is Some
        &&& u64_field(m, "daytrade_count"@) is Some
        &&& str_field(m, "balance_asof"@) is Some
        &&& u64_field(m, "crypto_tier"@) is Some
        &&& u64_field(m, "options_trading_level"@) is Some
        &&& dec_field(m, "intraday_adjustments"@) is Some
        &&& dec_field(m, "pending_reg_taf_fees"@) is Some
}

impl Account {
    /// Structural well-formedness of an account value.
    pub open spec fn wf(self) -> bool {
        &&& self.id.wf()
        &&& val_wf(self.admin_configurations@)
        &&& (match self.user_configurations { Some(v) => val_wf(v@), None => true })
        &&& plain_text(self.account_number@)
        &&& plain_text(self.crypto_status@)
        &&& plain_text(self.currency@)
        &&& self.cash.wf()
        &&& self.portfolio_value.wf()
        &&& plain_text(self.created_at@)
        &&& timestamp_utc(self.created_at@)
        &&& self.market_value_long.wf()
        &&& self.market_value_short.wf()
        &&& self.equity.wf()
        &&& self.last_equity.wf()
        &&& self.multiplier.wf()
        &&& self.buying_power.wf()
        &&& self.regt_buying_power.wf()
        &&& self.daytrading_buying_power.wf()
        &&& self.options_buying_power.wf()
        &&& self.effective_buying_power.wf()
        &&& self.non_marginable_buying_power.wf()
        &&& self.bod_dtbp.wf()
        &&& self.accrued_fees.wf()
        &&& self.pending_transfer_in.wf()
        &&& self.position_market_value.wf()
        &&& self.initial_margin.wf()
        &&& self.maintenance_margin.wf()
        &&& self.last_maintenance_margin.wf()
        &&& self.sma.wf()
        &&& plain_text(self.balance_asof@)
        &&& self.intraday_adjustments.wf()
        &&& self.pending_reg_taf_fees.wf()
    }

    /// Decode an account from a wire document; succeeds exactly when the
    /// document is decodable, and then every attribute is fixed by its
    /// field rule.
    #[verifier::rlimit(100)]
    pub fn from_entries(entries: &Entries) -> (r: Option<Account>)
        requires
            doc_wf(model_of(entries@)),
        ensures
            match r {
                Some(a) => account_decodable(model_of(entries@)) && account_obeys(
                    model_of(entries@),
                    a,
                ) && a.wf(),
                None => !account_decodable(model_of(entries@)),
            },
    {
        let id = match get_id(entries, "id") { Some(x) => x, None => { return None; } };
        let admin_configurations = match get_value(entries, "admin_configurations") { Some(x) => x, None => { return None; } };
        let user_configurations = get_opt(entries, "user_configurations");
        let account_number = match get_str(entries, "account_number") { Some(x) => x, None => { return None; } };
        let status = match get_status(entries, "status") { Some(x) => x, None => { return None; } };
        let crypto_status = match get_str(entries, "crypto_status") { Some(x) => x, None => { return None; } };
        let currency = match get_str(entries, "currency") { Some(x) => x, None => { return None; } };
        let cash = match get_dec(entries, "cash") { Some(x) => x, None => { return None; } };
        let portfolio_value = match get_dec(entries, "portfolio_value") { Some(x) => x, None => { return None; } };
        let day_trader = match get_bool(entries, "pattern_day_trader") { Some(x) => x, None => { return None; } };
        let trading_suspended = match get_bool(entries, "trade_suspended_by_user") { Some(x) => x, None => { return None; } };
        let trading_blocked = match get_bool(entries, "trading_blocked") { Some(x) => x, None => { return None; } };
        let transfers_blocked = match get_bool(entries, "transfers_blocked") { Some(x) => x, None => { return None; } };
        let account_blocked = match get_bool(entries, "account_blocked") { Some(x) => x, None => { return None; } };
        let created_at = match get_ts(entries, "created_at") { Some(x) => x, None => { return None; } };
        let shorting_enabled = match get_bool(entries, "shorting_enabled") { Some(x) => x, None => { return None; } };
        let market_value_long = match get_dec(entries, "long_market_value") { Some(x) => x, None => { return None; } };
        let market_value_short = match get_dec(entries, "short_market_value") { Some(x) => x, None => { return None; } };
        let equity = match get_dec(entries, "equity") { Some(x) => x, None => { return None; } };
        let last_equity = match get_dec(entries, "last_equity") { Some(x) => x, None => { return None; } };
        let multiplier = match get_dec(entries, "multiplier") { Some(x) => x, None => { return None; } };
        let buying_power = match get_dec(entries, "buying_power") { Some(x) => x, None => { return None; } };
        let regt_buying_power = match get_dec(entries, "regt_buying_power") { Some(x) => x, None => { return None; } };
        let daytrading_buying_power = match get_dec(entries, "daytrading_buying_power") { Some(x) => x, None => { return None; } };
        let options_buying_power = match get_dec(entries, "options_buying_power") { Some(x) => x, None => { return None; } };
        let effective_buying_power = match get_dec(entries, "effective_buying_power") { Some(x) => x, None => { return None; } };
        let non_marginable_buying_power = match get_dec(entries, "non_marginable_buying_power") { Some(x) => x, None => { return None; } };
        let bod_dtbp = match get_dec(entries, "bod_dtbp") { Some(x) => x, None => { return None; } };
        let accrued_fees = match get_dec(entries, "accrued_fees") { Some(x) => x, None => { return None; } };
        let pending_transfer_in = match get_dec_default(entries, "pending_transfer_in") { Some(x) => x, None => { return None; } };
        let position_market_value = match get_dec(entries, "position_market_value") { Some(x) => x, None => { return None; } };
        let initial_margin = match get_dec(entries, "initial_margin") { Some(x) => x, None => { return None; } };
        let maintenance_margin = match get_dec(entries, "maintenance_margin") { Some(x) => x, None => { return None; } };
        let last_maintenance_margin = match get_dec(entries, "last_maintenance_margin") { Some(x) => x, None => { return None; } };
        let sma = match get_dec(entries, "sma") { Some(x) => x, None => { return None; } };
        let daytrade_count = match get_u64(entries, "daytrade_count") { Some(x) => x, None => { return None; } };
        let balance_asof = match get_str(entries, "balance_asof") { Some(x) => x, None => { return None; } };
        let crypto_tier = match get_u64(entries, "crypto_tier") { Some(x) => x, None => { return None; } };
        let options_trading_level = match get_u64(entries, "options_trading_level") { Some(x) => x, None => { return None; } };
        let intraday_adjustments = match get_dec(entries, "intraday_adjustments") { Some(x) => x, None => { return None; } };
        let pending_reg_taf_fees = match get_dec(entries, "pending_reg_taf_fees") { Some(x) => x, None => { return None; } };
        Some(Account {
            id,
            admin_configurations,
            user_configurations,
            account_number,
            status,
            crypto_status,
            currency,
            cash,
            portfolio_value,
            day_trader,
            trading_suspended,
            trading_blocked,
            transfers_blocked,
            account_blocked,
            created_at,
            shorting_enabled,
            market_value_long,
            market_value_short,
            equity,
            last_equity,
            multiplier,
            buying_power,
            regt_buying_power,
            daytrading_buying_power,
            options_buying_power,
            effective_buying_power,
            non_marginable_buying_power,
            bod_dtbp,
            accrued_fees,
            pending_transfer_in,
            position_market_value,
            initial_margin,
            maintenance_margin,
            last_maintenance_margin,
            sma,
            daytrade_count,
            balance_asof,
            crypto_tier,
            options_trading_level,
            intraday_adjustments,
            pending_reg_taf_fees,
            _non_exhaustive: (),
        })
    }

    /// Encode an account as a wire document: every member present, money
    /// as decimal strings, counters as bare numbers.
    #[verifier::rlimit(100)]
    pub fn to_entries(&self) -> (r: Entries)
        requires
            self.wf(),
        ensures
            doc_wf(model_of(r@)),
            account_wire_obeys(*self, model_of(r@)),
    {
        let mut out: Entries = Vec::new();
        out.push(("id".to_owned(), Value::Str(self.id.encode())));
        out.push(("admin_configurations".to_owned(), clone_value(&self.admin_configurations)));
        out.push(("user_configurations".to_owned(), match &self.user_configurations {
            Some(v) => clone_value(v),
            None => Value::Null,
        }));
        out.push(("account_number".to_owned(), Value::Str(self.account_number.as_str().to_owned())));
        out.push(("status".to_owned(), Value::Str(self.status.encode())));
        out.push(("crypto_status".to_owned(), Value::Str(self.crypto_status.as_str().to_owned())));
        out.push(("currency".to_owned(), Value::Str(self.currency.as_str().to_owned())));
        out.push(("cash".to_owned(), Value::Str(self.cash.encode())));
        out.push(("portfolio_value".to_owned(), Value::Str(self.portfolio_value.encode())));
        out.push(("pattern_day_trader".to_owned(), Value::Bool(self.day_trader)));
        out.push(("trade_suspended_by_user".to_owned(), Value::Bool(self.trading_suspended)));
        out.push(("trading_blocked".to_owned(), Value::Bool(self.trading_blocked)));
        out.push(("transfers_blocked".to_owned(), Value::Bool(self.transfers_blocked)));
        out.push(("account_blocked".to_owned(), Value::Bool(self.account_blocked)));
        out.push(("created_at".to_owned(), Value::Str(self.created_at.as_str().to_owned())));
        out.push(("shorting_enabled".to_owned(), Value::Bool(self.shorting_enabled)));
        out.push(("long_market_value".to_owned(), Value::Str(self.market_value_long.encode())));
        out.push(("short_market_value".to_owned(), Value::Str(self.market_value_short.encode())));
        out.push(("equity".to_owned(), Value::Str(self.equity.encode())));
        out.push(("last_equity".to_owned(), Value::Str(self.last_equity.encode())));
        out.push(("multiplier".to_owned(), Value::Str(self.multiplier.encode())));
        out.push(("buying_power".to_owned(), Value::Str(self.buying_power.encode())));
        out.push(("regt_buying_power".to_owned(), Value::Str(self.regt_buying_power.encode())));
        out.push(("daytrading_buying_power".to_owned(), Value::Str(self.daytrading_buying_power.encode())));
        out.push(("options_buying_power".to_owned(), Value::Str(self.options_buying_power.encode())));
        out.push(("effective_buying_power".to_owned(), Value::Str(self.effective_buying_power.encode())));
        out.push(("non_marginable_buying_power".to_owned(), Value::Str(self.non_marginable_buying_power.encode())));
        out.push(("bod_dtbp".to_owned(), Value::Str(self.bod_dtbp.encode())));
        out.push(("accrued_fees".to_owned(), Value::Str(self.accrued_fees.encode())));
        out.push(("pending_transfer_in".to_owned(), Value::Str(self.pending_transfer_in.encode())));
        out.push(("position_market_value".to_owned(), Value::Str(self.position_market_value.encode())));
        out.push(("initial_margin".to_owned(), Value::Str(self.initial_margin.encode())));
        out.push(("maintenance_margin".to_owned(), Value::Str(self.maintenance_margin.encode())));
        out.push(("last_maintenance_margin".to_owned(), Value::Str(self.last_maintenance_margin.encode())));
        out.push(("sma".to_owned(), Value::Str(self.sma.encode())));
        out.push(("daytrade_count".to_owned(), Value::Num(Decimal::from_u64(self.daytrade_count))));
        out.push(("balance_asof".to_owned(), Value::Str(self.balance_asof.as_str().to_owned())));
        out.push(("crypto_tier".to_owned(), Value::Num(Decimal::from_u64(self.crypto_tier))));
        out.push(("options_trading_level".to_owned(), Value::Num(Decimal::from_u64(self.options_trading_level))));
        out.push(("intraday_adjustments".to_owned(), Value::Str(self.intraday_adjustments.encode())));
        out.push(("pending_reg_taf_fees".to_owned(), Value::Str(self.pending_reg_taf_fees.encode())));
        proof {
            reveal_strlit("account_blocked");
            reveal_strlit("account_number");
            reveal_strlit("accrued_fees");
            reveal_strlit("admin_configurations");
            reveal_strlit("balance_asof");
            reveal_strlit("bod_dtbp");
            reveal_strlit("buying_power");
            reveal_strlit("cash");
            reveal_strlit("created_at");
            reveal_strlit("crypto_status");
            reveal_strlit("crypto_tier");
            reveal_strlit("currency");
            reveal_strlit("daytrade_count");
            reveal_strlit("daytrading_buying_power");
            reveal_strlit("effective_buying_power");
            reveal_strlit("equity");
            reveal_strlit("id");
            reveal_strlit("initial_margin");
            reveal_strlit("intraday_adjustments");
            reveal_strlit("last_equity");
            reveal_strlit("last_maintenance_margin");
            reveal_strlit("long_market_value");
            reveal_strlit("maintenance_margin");
            reveal_strlit("multiplier");
            reveal_strlit("non_marginable_buying_power");
            reveal_strlit("options_buying_power");
            reveal_strlit("options_trading_level");
            reveal_strlit("pattern_day_trader");
            reveal_strlit("pending_reg_taf_fees");
            reveal_strlit("pending_transfer_in");
            reveal_strlit("portfolio_value");
            reveal_strlit("position_market_value");
            reveal_strlit("regt_buying_power");
            reveal_strlit("short_market_value");
            reveal_strlit("shorting_enabled");
            reveal_strlit("sma");
            reveal_strlit("status");
            reveal_strlit("trade_suspended_by_user");
            reveal_strlit("trading_blocked");
            reveal_strlit("transfers_blocked");
            reveal_strlit("user_configurations");
            assert(plain_text("account_blocked"@));
            assert(plain_text("account_number"@));
            assert(plain_text("accrued_fees"@));
            assert(plain_text("admin_configurations"@));
            assert(plain_text("balance_asof"@));
            assert(plain_text("bod_dtbp"@));
            assert(plain_text("buying_power"@));
            assert(plain_text("cash"@));
            assert(plain_text("created_at"@));
            assert(plain_text("crypto_status"@));
            assert(plain_text("crypto_tier"@));
            assert(plain_text("currency"@));
            assert(plain_text("daytrade_count"@));
            assert(plain_text("daytrading_buying_power"@));
            assert(plain_text("effective_buying_power"@));
            assert(plain_text("equity"@));
            assert(plain_text("id"@));
            assert(plain_text("initial_margin"@));
            assert(plain_text("intraday_adjustments"@));
            assert(plain_text("last_equity"@));
            assert(plain_text("last_maintenance_margin"@));
            assert(plain_text("long_market_value"@));
            assert(plain_text("maintenance_margin"@));
            assert(plain_text("multiplier"@));
            assert(plain_text("non_marginable_buying_power"@));
            assert(plain_text("options_buying_power"@));
            assert(plain_text("options_trading_level"@));
            assert(plain_text("pattern_day_trader"@));
            assert(plain_text("pending_reg_taf_fees"@));
            assert(plain_text("pending_transfer_in"@));
            assert(plain_text("portfolio_value"@));
            assert(plain_text("position_market_value"@));
            assert(plain_text("regt_buying_power"@));
            assert(plain_text("short_market_value"@));
            assert(plain_text("shorting_enabled"@));
            assert(plain_text("sma"@));
            assert(plain_text("status"@));
            assert(plain_text("trade_suspended_by_user"@));
            assert(plain_text("trading_blocked"@));
            assert(plain_text("transfers_blocked"@));
            assert(plain_text("user_configurations"@));
            lemma_status_tag_plain(self.status);
            lemma_dec_encode_plain(self.cash@);
            lemma_dec_encode_plain(self.portfolio_value@);
            lemma_dec_encode_plain(self.market_value_long@);
            lemma_dec_encode_plain(self.market_value_short@);
            lemma_dec_encode_plain(self.equity@);
            lemma_dec_encode_plain(self.last_equity@);
            lemma_dec_encode_plain(self.multiplier@);
            lemma_dec_encode_plain(self.buying_power@);
            lemma_dec_encode_plain(self.regt_buying_power@);
            lemma_dec_encode_plain(self.daytrading_buying_power@);
            lemma_dec_encode_plain(self.options_buying_power@);
            lemma_dec_encode_plain(self.effective_buying_power@);
            lemma_dec_encode_plain(self.non_marginable_buying_power@);
            lemma_dec_encode_plain(self.bod_dtbp@);
            lemma_dec_encode_plain(self.accrued_fees@);
            lemma_dec_encode_plain(self.pending_transfer_in@);
            lemma_dec_encode_plain(self.position_market_value@);
            lemma_dec_encode_plain(self.initial_margin@);
            lemma_dec_encode_plain(self.maintenance_margin@);
            lemma_dec_encode_plain(self.last_maintenance_margin@);
            lemma_dec_encode_plain(self.sma@);
            lemma_dec_encode_plain(self.intraday_adjustments@);
            lemma_dec_encode_plain(self.pending_reg_taf_fees@);
            lemma_id_plain(self.id.0@);
            assert forall|t: int| 0 <= t < out@.len() implies model_of(out@)[t] == (
            out@[t].0@,
            out@[t].1@,
            ) by {}
            assert(doc_wf(model_of(out@)));
        }
        out
    }
}

/// What an encoded document says of the account it came from, member by
/// member, in wire order.
pub open spec fn account_wire_obeys(a: Account, m: Seq<(Seq<char>, ValModel)>) -> bool {
    &&& m.len() == 41
        &&& m[0].0 == "id"@
        &&& m[0].1 == ValModel::Str(a.id.0@)
        &&& m[1].0 == "admin_configurations"@
        &&& m[1].1 == a.admin_configurations@
        &&& m[2].0 == "user_configurations"@
        &&& m[2].1 == (match a.user_configurations { Some(v) => v@, None => ValModel::Null })
        &&& m[3].0 == "account_number"@
        &&& m[3].1 == ValModel::Str(a.account_number@)
        &&& m[4].0 == "status"@
        &&& m[4].1 == ValModel::Str(status_tag(a.status))
        &&& m[5].0 == "crypto_status"@
        &&& m[5].1 == ValModel::Str(a.crypto_status@)
        &&& m[6].0 == "currency"@
        &&& m[6].1 == ValModel::Str(a.currency@)
        &&& m[7].0 == "cash"@
        &&& m[7].1 == ValModel::Str(spec_encode(a.cash@))
        &&& m[8].0 == "portfolio_value"@
        &&& m[8].1 == ValModel::Str(spec_encode(a.portfolio_value@))
        &&& m[9].0 == "pattern_day_trader"@
        &&& m[9].1 == ValModel::Bool(a.day_trader)
        &&& m[10].0 == "trade_suspended_by_user"@
        &&& m[10].1 == ValModel::Bool(a.trading_suspended)
        &&& m[11].0 == "trading_blocked"@
        &&& m[11].1 == ValModel::Bool(a.trading_blocked)
        &&& m[12].0 == "transfers_blocked"@
        &&& m[12].1 == ValModel::Bool(a.transfers_blocked)
        &&& m[13].0 == "account_blocked"@
        &&& m[13].1 == ValModel::Bool(a.account_blocked)
        &&& m[14].0 == "created_at"@
        &&& m[14].1 == ValModel::Str(a.created_at@)
        &&& m[15].0 == "shorting_enabled"@
        &&& m[15].1 == ValModel::Bool(a.shorting_enabled)
        &&& m[16].0 == "long_market_value"@
        &&& m[16].1 == ValModel::Str(spec_encode(a.market_value_long@))
        &&& m[17].0 == "short_market_value"@
        &&& m[17].1 == ValModel::Str(spec_encode(a.market_value_short@))
        &&& m[18].0 == "equity"@
        &&& m[18].1 == ValModel::Str(spec_encode(a.equity@))
        &&& m[19].0 == "last_equity"@
        &&& m[19].1 == ValModel::Str(spec_encode(a.last_equity@))
        &&& m[20].0 == "multiplier"@
        &&& m[20].1 == ValModel::Str(spec_encode(a.multiplier@))
        &&& m[21].0 == "buying_power"@
        &&& m[21].1 == ValModel::Str(spec_encode(a.buying_power@))
        &&& m[22].0 == "regt_buying_power"@
        &&& m[22].1 == ValModel::Str(spec_encode(a.regt_buying_power@))
        &&& m[23].0 == "daytrading_buying_power"@
        &&& m[23].1 == ValModel::Str(spec_encode(a.daytrading_buying_power@))
        &&& m[24].0 == "options_buying_power"@
        &&& m[24].1 == ValModel::Str(spec_encode(a.options_buying_power@))
        &&& m[25].0 == "effective_buying_power"@
        &&& m[25].1 == ValModel::Str(spec_encode(a.effective_buying_power@))
        &&& m[26].0 == "non_marginable_buying_power"@
        &&& m[26].1 == ValModel::Str(spec_encode(a.non_marginable_buying_power@))
        &&& m[27].0 == "bod_dtbp"@
        &&& m[27].1 == ValModel::Str(spec_encode(a.bod_dtbp@))
        &&& m[28].0 == "accrued_fees"@
        &&& m[28].1 == ValModel::Str(spec_encode(a.accrued_fees@))
        &&& m[29].0 == "pending_transfer_in"@
        &&& m[29].1 == ValModel::Str(spec_encode(a.pending_transfer_in@))
        &&& m[30].0 == "position_market_value"@
        &&& m[30].1 == ValModel::Str(spec_encode(a.position_market_value@))
        &&& m[31].0 == "initial_margin"@
        &&& m[31].1 == ValModel::Str(spec_encode(a.initial_margin@))
        &&& m[32].0 == "maintenance_margin"@
        &&& m[32].1 == ValModel::Str(spec_encode(a.maintenance_margin@))
        &&& m[33].0 == "last_maintenance_margin"@
        &&& m[33].1 == ValModel::Str(spec_encode(a.last_maintenance_margin@))
        &&& m[34].0 == "sma"@
        &&& m[34].1 == ValModel::Str(spec_encode(a.sma@))
        &&& m[35].0 == "daytrade_count"@
        &&& (m[35].1 matches ValModel::Num(d) && !d.neg && d.scale == 0 && mant(d.digits) == a.daytrade_count)
        &&& m[36].0 == "balance_asof"@
        &&& m[36].1 == ValModel::Str(a.balance_asof@)
        &&& m[37].0 == "crypto_tier"@
        &&& (m[37].1 matches ValModel::Num(d) && !d.neg && d.scale == 0 && mant(d.digits) == a.crypto_tier)
        &&& m[38].0 == "options_trading_level"@
        &&& (m[38].1 matches ValModel::Num(d) && !d.neg && d.scale == 0 && mant(d.digits) == a.options_trading_level)
        &&& m[39].0 == "intraday_adjustments"@
        &&& m[39].1 == ValModel::Str(spec_encode(a.intraday_adjustments@))
        &&& m[40].0 == "pending_reg_taf_fees"@
        &&& m[40].1 == ValModel::Str(spec_encode(a.pending_reg_taf_fees@))
}

/// Everything the identifier text may hold is plain: hexadecimal digits
/// and hyphens.
pub proof fn lemma_id_plain(s: Seq<char>)
    requires
        id_canon(s),
    ensures
        plain_text(s),
{
    assert forall|i: int| 0 <= i < s.len() implies s[i] != '"' && s[i] != '\\' by {
        if i == 8 || i == 13 || i == 18 || i == 23 {
        } else {
            assert(is_hex_lower(s[i]) || is_hex_upper(s[i]));
        }
    }
}

/// Every status tag is plain text.
pub proof fn lemma_status_tag_plain(st: Status)
    ensures
        plain_text(status_tag(st)),
{
    reveal_strlit("ONBOARDING");
    reveal_strlit("SUBMISSION_FAILED");
    reveal_strlit("SUBMITTED");
    reveal_strlit("ACCOUNT_UPDATED");
    reveal_strlit("APPROVAL_PENDING");
    reveal_strlit("ACTIVE");
    reveal_strlit("REJECTED");
    reveal_strlit("unknown");
}

/// The canonical text of a decimal is plain: sign, digits and a dot.
pub proof fn lemma_dec_encode_plain(m: DecModel)
    ensures
        plain_text(spec_encode(m)),
{
    let e = spec_encode(m);
    let sign: Seq<char> = if m.neg {
        seq!['-']
    } else {
        Seq::<char>::empty()
    };
    let sl = sign.len() as int;
    let ip = crate::decimal::chars_of_digits(m.digits.skip(m.scale as int));
    let fp = crate::decimal::chars_of_digits(m.digits.take(m.scale as int));
    let il = ip.len() as int;
    assert forall|t: int| 0 <= t < e.len() implies e[t] != '"' && e[t] != '\\' by {
        if t < sl {
            assert(e[t] == '-');
        } else if t < sl + il {
            assert(e[t] == ip[t - sl]);
            assert(ip[t - sl] == crate::decimal::digit_char(
                m.digits.skip(m.scale as int).reverse()[t - sl],
            ));
        } else if m.scale > 0 {
            if t == sl + il {
                assert(e[t] == '.');
            } else {
                assert(e[t] == fp[t - sl - il - 1]);
                assert(fp[t - sl - il - 1] == crate::decimal::digit_char(
                    m.digits.take(m.scale as int).reverse()[t - sl - il - 1],
                ));
            }
        }
    }
}


/// The diagnostic payload of a declared error variant: the structured
/// failure message the server sent, or the raw body when no message
/// decodes.
pub enum ApiError {
    /// A structured failure message: its text, with the numeric code when
    /// one was sent.
    Message { code: Option<u64>, message: String },
    /// The raw response body, kept verbatim.
    Raw(String),
}

/// What a decoded error payload says of the body it came from: the
/// message and code fields when the body is a document with a message,
/// the raw body otherwise.
pub open spec fn api_error_obeys(body: Seq<char>, e: &ApiError) -> bool {
    match crate::codec::spec_parse_doc(body) {
        Some(m) => match str_field(m, "message"@) {
            Some(t) => e matches ApiError::Message { code, message } && message@ == t && code
                == u64_field(m, "code"@),
            None => e matches ApiError::Raw(raw) && raw@ == body,
        },
        None => e matches ApiError::Raw(raw) && raw@ == body,
    }
}

/// Decode a failure body; total, exactly [`api_error_obeys`].
pub fn parse_api_error(body: String) -> (e: ApiError)
    ensures
        api_error_obeys(body@, &e),
{
    match crate::codec::parse_doc(body.as_str()) {
        Some(entries) => {
            match get_str(&entries, "message") {
                Some(msg) => ApiError::Message { code: get_u64(&entries, "code"), message: msg },
                None => ApiError::Raw(body),
            }
        },
        None => ApiError::Raw(body),
    }
}

/// The error set of the account-retrieval operation: one declared variant
/// for the authorization-failure status, and the catch-all that keeps any
/// other status and body verbatim.
pub enum GetError {
    /// The request was not permitted.
    NotPermitted(ApiError),
    /// Any other non-success status, with the raw status and body.
    Unknown(u16, String),
}

/// The account-retrieval operation: a GET of a fixed path with no body.
/// Status 200 decodes the body as [`Account`]; the authorization-failure
/// status 403 is declared as [`GetError::NotPermitted`]; every other
/// status falls to [`GetError::Unknown`].
pub struct Get;

impl crate::dispatch::Endpoint for Get {
    type Input = ();

    type Output = Account;

    type Error = GetError;

    open spec fn method_spec() -> crate::dispatch::Method {
        crate::dispatch::Method::Get
    }

    open spec fn path_spec(input: &()) -> Seq<char> {
        "/v2/account"@
    }

    open spec fn body_spec(input: &()) -> Option<Seq<char>> {
        None
    }

    open spec fn success_spec(status: u16) -> bool {
        status == 200
    }

    open spec fn output_ok(body: Seq<char>) -> bool {
        match crate::codec::spec_parse_doc(body) {
            Some(m) => account_decodable(m),
            None => false,
        }
    }

    open spec fn output_obeys(body: Seq<char>, out: &Account) -> bool {
        match crate::codec::spec_parse_doc(body) {
            Some(m) => account_obeys(m, *out) && out.wf(),
            None => false,
        }
    }

    open spec fn declared_spec(status: u16) -> bool {
        status == 403
    }

    open spec fn error_obeys(status: u16, body: Seq<char>, e: &GetError) -> bool {
        if status == 403 {
            e matches GetError::NotPermitted(api) && api_error_obeys(body, &api)
        } else {
            e matches GetError::Unknown(st, raw) && st == status && raw@ == body
        }
    }

    open spec fn is_catch_all(e: &GetError) -> bool {
        e matches GetError::Unknown(_, _)
    }

    fn method() -> crate::dispatch::Method {
        crate::dispatch::Method::Get
    }

    fn path(input: &()) -> String {
        "/v2/account".to_owned()
    }

    fn body(input: &()) -> Option<String> {
        None
    }

    fn is_success(status: u16) -> bool {
        status == 200
    }

    fn parse_output(body: &str) -> Option<Account> {
        match crate::codec::parse_doc(body) {
            Some(entries) => Account::from_entries(&entries),
            None => None,
        }
    }

    fn parse_error(status: u16, body: String) -> GetError {
        if status == 403 {
            GetError::NotPermitted(parse_api_error(body))
        } else {
            GetError::Unknown(status, body)
        }
    }

    proof fn declared_never_catch_all(status: u16, body: Seq<char>, e: &GetError) {
    }

    proof fn undeclared_always_catch_all(status: u16, body: Seq<char>, e: &GetError) {
    }
}

/// Law: for the account-retrieval operation, a declared failure status
/// always yields its named variant and an undeclared one always yields
/// the catch-all, whatever the body held.
pub proof fn lemma_get_error_classification(status: u16, body: Seq<char>, e: &GetError)
    requires
        status != 200,
        <Get as crate::dispatch::Endpoint>::error_obeys(status, body, e),
    ensures
        status == 403 ==> e matches GetError::NotPermitted(_),
        status != 403 ==> (e matches GetError::Unknown(st, raw) && st == status && raw@ == body),
{
}

impl Account {
    /// Decode an account from whole document text: the document must
    /// parse and every required member must be present and well typed.
    pub fn from_json(s: &str) -> (r: Option<Account>)
        ensures
            match crate::codec::spec_parse_doc(s@) {
                Some(m) => match r {
                    Some(a) => account_decodable(m) && account_obeys(m, a) && a.wf(),
                    None => !account_decodable(m),
                },
                None => r is None,
            },
    {
        match crate::codec::parse_doc(s) {
            Some(entries) => Account::from_entries(&entries),
            None => None,
        }
    }

    /// Encode an account as document text: the canonical serialization of
    /// a wire document that [`account_wire_obeys`] ties to this account.
    pub fn to_json(&self) -> (r: String)
        requires
            self.wf(),
        ensures
            exists|m: Seq<(Seq<char>, ValModel)>|
                #[trigger] account_wire_obeys(*self, m) && crate::codec::doc_wf(m) && r@
                    == crate::codec::spec_ser_doc(m),
    {
        let entries = self.to_entries();
        let r = crate::codec::encode_doc(&entries);
        proof {
            assert(account_wire_obeys(*self, model_of(entries@)) && crate::codec::doc_wf(
                model_of(entries@),
            ) && r@ == crate::codec::spec_ser_doc(model_of(entries@)));
        }
        r
    }
}


/// The digit at a fixed position, as a number.
pub open spec fn ts_dig(s: Seq<char>, i: int) -> int {
    crate::decimal::digit_val(s[i]) as int
}

/// The year, month, day, hour, minute and second written in a timestamp.
pub open spec fn ts_year(s: Seq<char>) -> int {
    1000 * ts_dig(s, 0) + 100 * ts_dig(s, 1) + 10 * ts_dig(s, 2) + ts_dig(s, 3)
}

pub open spec fn ts_month(s: Seq<char>) -> int {
    10 * ts_dig(s, 5) + ts_dig(s, 6)
}

pub open spec fn ts_day(s: Seq<char>) -> int {
    10 * ts_dig(s, 8) + ts_dig(s, 9)
}

pub open spec fn ts_hour(s: Seq<char>) -> int {
    10 * ts_dig(s, 11) + ts_dig(s, 12)
}

pub open spec fn ts_min(s: Seq<char>) -> int {
    10 * ts_dig(s, 14) + ts_dig(s, 15)
}

pub open spec fn ts_sec(s: Seq<char>) -> int {
    10 * ts_dig(s, 17) + ts_dig(s, 18)
}

/// A leap year of the Gregorian calendar.
pub open spec fn leap_year(y: int) -> bool {
    (y % 4 == 0 && y % 100 != 0) || y % 400 == 0
}

/// The number of days in a month.
pub open spec fn days_in_month(y: int, m: int) -> int {
    if m == 2 {
        if leap_year(y) {
            29
        } else {
            28
        }
    } else if m == 4 || m == 6 || m == 9 || m == 11 {
        30
    } else {
        31
    }
}

/// An RFC 3339 timestamp in its UTC form: date, `T`, time, an optional
/// fractional-second part, and the `Z` designator, with a calendar-valid
/// date and a valid time of day.
pub open spec fn timestamp_utc(s: Seq<char>) -> bool {
    &&& s.len() >= 20
    &&& s[4] == '-' && s[7] == '-' && s[10] == 'T' && s[13] == ':' && s[16] == ':'
    &&& forall|i: int|
        0 <= i < 19 && i != 4 && i != 7 && i != 10 && i != 13 && i != 16
            ==> crate::decimal::is_digit_char(#[trigger] s[i])
    &&& s[s.len() - 1] == 'Z'
    &&& (s.len() > 20 ==> s[19] == '.' && s.len() >= 22 && crate::decimal::digits_end(s, 20)
        == s.len() - 1)
    &&& 1 <= ts_month(s) <= 12
    &&& 1 <= ts_day(s) <= days_in_month(ts_year(s), ts_month(s))
    &&& ts_hour(s) <= 23
    &&& ts_min(s) <= 59
    &&& ts_sec(s) <= 59
}

fn ts_digit_at(s: &str, i: usize) -> (r: Option<u8>)
    requires
        i < s@.len(),
    ensures
        match r {
            Some(d) => crate::decimal::is_digit_char(s@[i as int]) && d == crate::decimal::digit_val(
                s@[i as int],
            ),
            None => !crate::decimal::is_digit_char(s@[i as int]),
        },
{
    let d = crate::decimal::digit_of(s.get_char(i));
    if d < 10 {
        Some(d)
    } else {
        None
    }
}

/// Whether text is a calendar-valid RFC 3339 UTC timestamp; exactly
/// [`timestamp_utc`].
#[verifier::loop_isolation(false)]
#[verifier::rlimit(60)]
pub fn check_timestamp(s: &str) -> (r: bool)
    ensures
        r == timestamp_utc(s@),
{
    let n = s.unicode_len();
    if n < 20 {
        return false;
    }
    if !(s.get_char(4) == '-' && s.get_char(7) == '-' && s.get_char(10) == 'T' && s.get_char(13)
        == ':' && s.get_char(16) == ':') {
        return false;
    }
    if s.get_char(n - 1) != 'Z' {
        return false;
    }
    let mut digs: Vec<u8> = Vec::new();
    let mut i: usize = 0;
    while i < 19
        invariant
            i <= 19,
            digs@.len() == i,
            forall|t: int|
                0 <= t < i && t != 4 && t != 7 && t != 10 && t != 13 && t != 16
                    ==> crate::decimal::is_digit_char(#[trigger] s@[t]) && digs@[t]
                    == crate::decimal::digit_val(s@[t]),
        decreases 19 - i,
    {
        if i == 4 || i == 7 || i == 10 || i == 13 || i == 16 {
            digs.push(0);
        } else {
            match ts_digit_at(s, i) {
                Some(d) => {
                    digs.push(d);
                },
                None => {
                    return false;
                },
            }
        }
        i += 1;
    }
    if n > 20 {
        if s.get_char(19) != '.' {
            return false;
        }
        let mut j: usize = 20;
        let mut more = if j < n {
            crate::decimal::digit_of(s.get_char(j)) < 10
        } else {
            false
        };
        while more
            invariant
                20 <= j <= n,
                crate::decimal::digits_end(s@, 20) == crate::decimal::digits_end(s@, j as int),
                more == (j < s@.len() && crate::decimal::is_digit_char(s@[j as int])),
            decreases n - j,
        {
            j += 1;
            more = if j < n {
                crate::decimal::digit_of(s.get_char(j)) < 10
            } else {
                false
            };
        }
        if j != n - 1 {
            proof {
                if crate::decimal::digits_end(s@, 20) == s@.len() - 1 {
                    assert(crate::decimal::is_digit_char(s@[s@.len() - 1]));
                }
            }
            return false;
        }
        if j == 20 {
            // no fractional digit after the dot
            return false;
        }
    }
    let year: u32 = 1000 * (digs[0] as u32) + 100 * (digs[1] as u32) + 10 * (digs[2] as u32) + (
    digs[3] as u32);
    let month: u32 = 10 * (digs[5] as u32) + (digs[6] as u32);
    let day: u32 = 10 * (digs[8] as u32) + (digs[9] as u32);
    let hour: u32 = 10 * (digs[11] as u32) + (digs[12] as u32);
    let minute: u32 = 10 * (digs[14] as u32) + (digs[15] as u32);
    let second: u32 = 10 * (digs[17] as u32) + (digs[18] as u32);
    let leap = (year % 4 == 0 && year % 100 != 0) || year % 400 == 0;
    let dim: u32 = if month == 2 {
        if leap {
            29
        } else {
            28
        }
    } else if month == 4 || month == 6 || month == 9 || month == 11 {
        30
    } else {
        31
    };
    1 <= month && month <= 12 && 1 <= day && day <= dim && hour <= 23 && minute <= 59 && second
        <= 59
}

} // verus!
