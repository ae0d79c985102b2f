//! The JSON wire codec.
//!
//! Wire bodies are JSON documents whose members carry scalars: strings,
//! numbers, booleans and null. A member whose value is itself an object or
//! an array is preserved as a raw, verbatim span of text and handed back
//! unchanged on encode. String content is taken literally between quotes;
//! a backslash escape is not part of this codec's subset and makes the
//! document unreadable (callers degrade to the raw bytes). Numbers follow
//! the decimal grammar of [`crate::decimal`].

use vstd::prelude::*;

use crate::decimal::DecModel;
use crate::decimal::Decimal;
use crate::decimal::parse_number;
use crate::decimal::spec_encode;
use crate::decimal::spec_parse_number;

verus! {

/// One member value on the wire.
pub enum Value {
    /// JSON `null`.
    Null,
    /// JSON `true` or `false`.
    Bool(bool),
    /// A bare JSON number, kept exact.
    Num(Decimal),
    /// A JSON string.
    Str(String),
    /// A nested object or array, verbatim.
    Raw(String),
}

/// Mathematical content of a [`Value`].
#[verifier::ext_equal]
pub enum ValModel {
    Null,
    Bool(bool),
    Num(DecModel),
    Str(Seq<char>),
    Raw(Seq<char>),
}

impl View for Value {
    type V = ValModel;

    open spec fn view(&self) -> ValModel {
        match self {
            Value::Null => ValModel::Null,
            Value::Bool(b) => ValModel::Bool(*b),
            Value::Num(d) => ValModel::Num(d@),
            Value::Str(s) => ValModel::Str(s@),
            Value::Raw(s) => ValModel::Raw(s@),
        }
    }
}

/// The members of a wire document, in order.
pub type Entries = Vec<(String, Value)>;

/// Deep model of a document: key text and value models, in order.
pub open spec fn model_of(e: Seq<(String, Value)>) -> Seq<(Seq<char>, ValModel)> {
    e.map_values(|p: (String, Value)| (p.0@, p.1@))
}

/// Characters a string member may not contain raw.
pub open spec fn plain_text(t: Seq<char>) -> bool {
    forall|i: int| 0 <= i < t.len() ==> t[i] != '"' && t[i] != '\\'
}

/// A value the encoder can emit faithfully.
pub open spec fn val_wf(v: ValModel) -> bool {
    match v {
        ValModel::Null => true,
        ValModel::Bool(_) => true,
        ValModel::Num(m) => crate::decimal::dec_wf(m),
        ValModel::Str(t) => plain_text(t),
        ValModel::Raw(t) => true,
    }
}

/// A document the encoder can emit faithfully.
pub open spec fn doc_wf(m: Seq<(Seq<char>, ValModel)>) -> bool {
    forall|i: int| 0 <= i < m.len() ==> plain_text((#[trigger] m[i]).0) && val_wf(m[i].1)
}

/// JSON insignificant whitespace.
pub open spec fn is_ws(c: char) -> bool {
    c == ' ' || c == '\t' || c == '\n' || c == '\r'
}

/// First index at or after `i` holding a non-whitespace character.
pub open spec fn ws_end(s: Seq<char>, i: int) -> int
    decreases s.len() - i,
{
    if 0 <= i < s.len() && is_ws(s[i]) {
        ws_end(s, i + 1)
    } else {
        i
    }
}

/// Index of the closing quote of string content starting at `i`, or
/// nothing when the string is unterminated or holds a backslash.
pub open spec fn str_end(s: Seq<char>, i: int) -> Option<int>
    decreases s.len() - i,
{
    if 0 <= i < s.len() {
        if s[i] == '"' {
            Some(i)
        } else if s[i] == '\\' {
            None
        } else {
            str_end(s, i + 1)
        }
    } else {
        None
    }
}

pub proof fn lemma_str_end_range(s: Seq<char>, i: int)
    requires
        0 <= i <= s.len(),
    ensures
        str_end(s, i) matches Some(e) ==> i <= e < s.len() && s[e] == '"' && (forall|t: int|
            i <= t < e ==> s[t] != '"' && s[t] != '\\'),
    decreases s.len() - i,
{
    if i < s.len() && s[i] != '"' && s[i] != '\\' {
        lemma_str_end_range(s, i + 1);
    }
}

/// Index just past a balanced bracket span. `i` is the first character
/// after the opening bracket, `depth` counts open brackets, `instr` tells
/// whether the scan stands inside a string. Backslash escapes stop the
/// scan, as in [`str_end`].
pub open spec fn raw_end(s: Seq<char>, i: int, depth: int, instr: bool) -> Option<int>
    decreases s.len() - i,
{
    if 0 <= i < s.len() {
        let c = s[i];
        if instr {
            if c == '"' {
                raw_end(s, i + 1, depth, false)
            } else if c == '\\' {
                None
            } else {
                raw_end(s, i + 1, depth, true)
            }
        } else {
            if c == '{' || c == '[' {
                raw_end(s, i + 1, depth + 1, false)
            } else if c == '}' || c == ']' {
                if depth == 1 {
                    Some(i + 1)
                } else {
                    raw_end(s, i + 1, depth - 1, false)
                }
            } else if c == '"' {
                raw_end(s, i + 1, depth, true)
            } else {
                raw_end(s, i + 1, depth, false)
            }
        }
    } else {
        None
    }
}

/// One value token at `i`: a literal, a string, a number, or a raw
/// bracketed span.
pub open spec fn spec_parse_value(s: Seq<char>, i: int) -> Option<(ValModel, int)> {
    if 0 <= i < s.len() {
        let c = s[i];
        if c == 'n' {
            if i + 4 <= s.len() && s.subrange(i, i + 4) == seq!['n', 'u', 'l', 'l'] {
                Some((ValModel::Null, i + 4))
            } else {
                None
            }
        } else if c == 't' {
            if i + 4 <= s.len() && s.subrange(i, i + 4) == seq!['t', 'r', 'u', 'e'] {
                Some((ValModel::Bool(true), i + 4))
            } else {
                None
            }
        } else if c == 'f' {
            if i + 5 <= s.len() && s.subrange(i, i + 5) == seq!['f', 'a', 'l', 's', 'e'] {
                Some((ValModel::Bool(false), i + 5))
            } else {
                None
            }
        } else if c == '"' {
            match str_end(s, i + 1) {
                Some(e) => Some((ValModel::Str(s.subrange(i + 1, e)), e + 1)),
                None => None,
            }
        } else if c == '{' || c == '[' {
            match raw_end(s, i + 1, 1, false) {
                Some(e) => Some((ValModel::Raw(s.subrange(i, e)), e)),
                None => None,
            }
        } else {
            match spec_parse_number(s, i) {
                Some(p) => Some((ValModel::Num(p.0), p.1)),
                None => None,
            }
        }
    } else {
        None
    }
}

/// The members of an object, starting at the first character after `{`
/// or after a separating comma, up to and including the closing `}`.
pub open spec fn spec_parse_members(s: Seq<char>, i: int) -> Option<
    (Seq<(Seq<char>, ValModel)>, int),
>
    decreases s.len() - i,
{
    let j = ws_end(s, i);
    if 0 <= i && j < s.len() && s[j] == '"' {
        match str_end(s, j + 1) {
            Some(ke) => {
                let key = s.subrange(j + 1, ke);
                let c = ws_end(s, ke + 1);
                if c < s.len() && s[c] == ':' {
                    match spec_parse_value(s, ws_end(s, c + 1)) {
                        Some(p) => {
                            let e = ws_end(s, p.1);
                            if e < s.len() && s[e] == ',' {
                                if i < e + 1 <= s.len() {
                                    match spec_parse_members(s, e + 1) {
                                        Some(q) => Some(
                                            (seq![(key, p.0)] + q.0, q.1),
                                        ),
                                        None => None,
                                    }
                                } else {
                                    None
                                }
                            } else if e < s.len() && s[e] == '}' {
                                Some((seq![(key, p.0)], e + 1))
                            } else {
                                None
                            }
                        },
                        None => None,
                    }
                } else {
                    None
                }
            },
            None => None,
        }
    } else {
        None
    }
}

/// A whole document: one object, possibly empty, with nothing but
/// whitespace around it.
pub open spec fn spec_parse_doc(s: Seq<char>) -> Option<Seq<(Seq<char>, ValModel)>> {
    let j = ws_end(s, 0);
    if j < s.len() && s[j] == '{' {
        let k = ws_end(s, j + 1);
        if k < s.len() && s[k] == '}' {
            if ws_end(s, k + 1) == s.len() {
                Some(Seq::empty())
            } else {
                None
            }
        } else {
            match spec_parse_members(s, j + 1) {
                Some(p) => if ws_end(s, p.1) == s.len() {
                    Some(p.0)
                } else {
                    None
                },
                None => None,
            }
        }
    } else {
        None
    }
}


/// Character-wise string equality.
#[verifier::loop_isolation(false)]
pub fn str_eq(a: &str, b: &str) -> (r: bool)
    ensures
        r == (a@ == b@),
{
    let n = a.unicode_len();
    let m = b.unicode_len();
    if n != m {
        proof {
            assert(a@ != b@);
        }
        return false;
    }
    let mut i: usize = 0;
    while i < n
        invariant
            i <= n,
            forall|t: int| 0 <= t < i ==> a@[t] == b@[t],
        decreases n - i,
    {
        if a.get_char(i) != b.get_char(i) {
            proof {
                assert(a@[i as int] != b@[i as int]);
            }
            return false;
        }
        i += 1;
    }
    proof {
        assert(a@ =~= b@);
    }
    true
}

/// An identical copy of a value.
pub fn clone_value(v: &Value) -> (r: Value)
    ensures
        r@ == v@,
{
    match v {
        Value::Null => Value::Null,
        Value::Bool(b) => Value::Bool(*b),
        Value::Num(d) => Value::Num(d.duplicate()),
        Value::Str(s) => clone_str_value(s),
        Value::Raw(s) => clone_raw_value(s),
    }
}

fn clone_str_value(s: &String) -> (r: Value)
    ensures
        r@ == ValModel::Str(s@),
{
    Value::Str(s.as_str().to_owned())
}

fn clone_raw_value(s: &String) -> (r: Value)
    ensures
        r@ == ValModel::Raw(s@),
{
    Value::Raw(s.as_str().to_owned())
}

#[verifier::loop_isolation(false)]
fn skip_ws(s: &str, i: usize) -> (r: usize)
    requires
        i <= s@.len(),
    ensures
        r == ws_end(s@, i as int),
        i <= r <= s@.len(),
{
    let n = s.unicode_len();
    let mut j = i;
    let mut more = if j < n {
        is_ws_char(s.get_char(j))
    } else {
        false
    };
    while more
        invariant
            i <= j <= n,
            ws_end(s@, i as int) == ws_end(s@, j as int),
            more == (j < s@.len() && is_ws(s@[j as int])),
        decreases n - j,
    {
        j += 1;
        more = if j < n {
            is_ws_char(s.get_char(j))
        } else {
            false
        };
    }
    j
}

fn is_ws_char(c: char) -> (r: bool)
    ensures
        r == is_ws(c),
{
    c == ' ' || c == '\t' || c == '\n' || c == '\r'
}

#[verifier::loop_isolation(false)]
fn find_str_end(s: &str, i: usize) -> (r: Option<usize>)
    requires
        i <= s@.len(),
    ensures
        match r {
            Some(e) => str_end(s@, i as int) == Some(e as int) && i <= e < s@.len(),
            None => str_end(s@, i as int) is None,
        },
{
    let n = s.unicode_len();
    let mut j = i;
    while j < n
        invariant
            i <= j <= n,
            str_end(s@, i as int) == str_end(s@, j as int),
        decreases n - j,
    {
        let c = s.get_char(j);
        if c == '"' {
            return Some(j);
        }
        if c == '\\' {
            return None;
        }
        j += 1;
    }
    None
}

#[verifier::loop_isolation(false)]
fn find_raw_end(s: &str, i: usize) -> (r: Option<usize>)
    requires
        1 <= i <= s@.len(),
    ensures
        match r {
            Some(e) => raw_end(s@, i as int, 1, false) == Some(e as int) && i < e <= s@.len(),
            None => raw_end(s@, i as int, 1, false) is None,
        },
{
    let n = s.unicode_len();
    let mut j = i;
    let mut depth: usize = 1;
    let mut instr = false;
    while j < n
        invariant
            i <= j <= n,
            1 <= depth <= j,
            raw_end(s@, i as int, 1, false) == raw_end(s@, j as int, depth as int, instr),
        decreases n - j,
    {
        let c = s.get_char(j);
        if instr {
            if c == '"' {
                instr = false;
            } else if c == '\\' {
                return None;
            }
        } else {
            if c == '{' || c == '[' {
                depth += 1;
            } else if c == '}' || c == ']' {
                if depth == 1 {
                    return Some(j + 1);
                }
                depth -= 1;
            } else if c == '"' {
                instr = true;
            }
        }
        j += 1;
    }
    None
}

/// Parse one value token at `i`, exactly as [`spec_parse_value`] reads it.
#[verifier::loop_isolation(false)]
#[verifier::rlimit(60)]
pub fn parse_value(s: &str, i: usize) -> (r: Option<(Value, usize)>)
    requires
        i <= s@.len(),
    ensures
        match r {
            Some(p) => spec_parse_value(s@, i as int) == Some((p.0@, p.1 as int)) && val_wf(p.0@)
                && i < p.1 <= s@.len(),
            None => spec_parse_value(s@, i as int) is None,
        },
{
    let n = s.unicode_len();
    if i >= n {
        return None;
    }
    let c = s.get_char(i);
    if c == 'n' {
        if n - i >= 4 && s.get_char(i + 1) == 'u' && s.get_char(i + 2) == 'l' && s.get_char(i + 3)
            == 'l' {
            proof {
                assert(s@.subrange(i as int, i + 4) =~= seq!['n', 'u', 'l', 'l']);
            }
            Some((Value::Null, i + 4))
        } else {
            proof {
                if i + 4 <= s@.len() {
                    assert(s@.subrange(i as int, i + 4)[1] == s@[i + 1]);
                    assert(s@.subrange(i as int, i + 4)[2] == s@[i + 2]);
                    assert(s@.subrange(i as int, i + 4)[3] == s@[i + 3]);
                }
            }
            None
        }
    } else if c == 't' {
        if n - i >= 4 && s.get_char(i + 1) == 'r' && s.get_char(i + 2) == 'u' && s.get_char(i + 3)
            == 'e' {
            proof {
                assert(s@.subrange(i as int, i + 4) =~= seq!['t', 'r', 'u', 'e']);
            }
            Some((Value::Bool(true), i + 4))
        } else {
            proof {
                if i + 4 <= s@.len() {
                    assert(s@.subrange(i as int, i + 4)[1] == s@[i + 1]);
                    assert(s@.subrange(i as int, i + 4)[2] == s@[i + 2]);
                    assert(s@.subrange(i as int, i + 4)[3] == s@[i + 3]);
                }
            }
            None
        }
    } else if c == 'f' {
        if n - i >= 5 && s.get_char(i + 1) == 'a' && s.get_char(i + 2) == 'l' && s.get_char(i + 3)
            == 's' && s.get_char(i + 4) == 'e' {
            proof {
                assert(s@.subrange(i as int, i + 5) =~= seq!['f', 'a', 'l', 's', 'e']);
            }
            Some((Value::Bool(false), i + 5))
        } else {
            proof {
                if i + 5 <= s@.len() {
                    assert(s@.subrange(i as int, i + 5)[1] == s@[i + 1]);
                    assert(s@.subrange(i as int, i + 5)[2] == s@[i + 2]);
                    assert(s@.subrange(i as int, i + 5)[3] == s@[i + 3]);
                    assert(s@.subrange(i as int, i + 5)[4] == s@[i + 4]);
                }
            }
            None
        }
    } else if c == '"' {
        match find_str_end(s, i + 1) {
            Some(e) => {
                proof {
                    lemma_str_end_range(s@, i + 1);
                }
                let t = s.substring_char(i + 1, e).to_owned();
                Some((Value::Str(t), e + 1))
            },
            None => None,
        }
    } else if c == '{' || c == '[' {
        match find_raw_end(s, i + 1) {
            Some(e) => {
                let t = s.substring_char(i, e).to_owned();
                Some((Value::Raw(t), e))
            },
            None => None,
        }
    } else {
        match parse_number(s, i) {
            Some(p) => Some((Value::Num(p.0), p.1)),
            None => None,
        }
    }
}

/// Parse object members from `i` up to the closing brace, exactly as
/// [`spec_parse_members`] reads them.
#[verifier::loop_isolation(false)]
#[verifier::rlimit(60)]
fn parse_members(s: &str, i: usize) -> (r: Option<(Entries, usize)>)
    requires
        i <= s@.len(),
    ensures
        match r {
            Some(p) => spec_parse_members(s@, i as int) == Some((model_of(p.0@), p.1 as int))
                && doc_wf(model_of(p.0@)) && i < p.1 <= s@.len(),
            None => spec_parse_members(s@, i as int) is None,
        },
    decreases s@.len() - i,
{
    let n = s.unicode_len();
    let j = skip_ws(s, i);
    if !(j < n && s.get_char(j) == '"') {
        return None;
    }
    let ke = match find_str_end(s, j + 1) {
        Some(ke) => ke,
        None => {
            return None;
        },
    };
    proof {
        lemma_str_end_range(s@, j + 1);
    }
    let key = s.substring_char(j + 1, ke).to_owned();
    let ghost keym = key@;
    let c = skip_ws(s, ke + 1);
    if !(c < n && s.get_char(c) == ':') {
        return None;
    }
    let vstart = skip_ws(s, c + 1);
    let (val, vend) = match parse_value(s, vstart) {
        Some(p) => p,
        None => {
            return None;
        },
    };
    let ghost valm = val@;
    let e = skip_ws(s, vend);
    if e < n && s.get_char(e) == ',' {
        match parse_members(s, e + 1) {
            Some(p) => {
                let (mut rest, end) = p;
                let ghost rest0 = rest@;
                let mut out: Entries = Vec::new();
                out.push((key, val));
                out.append(&mut rest);
                proof {
                    assert(out@.len() == 1 + rest0.len());
                    assert forall|t: int| 0 <= t < out@.len() implies model_of(out@)[t] == (seq![
                        (keym, valm),
                    ] + model_of(rest0))[t] by {
                        if t > 0 {
                            assert(out@[t] == rest0[t - 1]);
                        }
                    }
                    assert(model_of(out@) =~= seq![(keym, valm)] + model_of(rest0));
                    assert forall|t: int| 0 <= t < model_of(out@).len() implies plain_text(
                        #[trigger] model_of(out@)[t].0,
                    ) && val_wf(model_of(out@)[t].1) by {
                        if t > 0 {
                            assert(model_of(out@)[t] == model_of(rest0)[t - 1]);
                            assert(doc_wf(model_of(rest0)));
                        }
                    }
                }
                Some((out, end))
            },
            None => None,
        }
    } else if e < n && s.get_char(e) == '}' {
        let mut out: Entries = Vec::new();
        out.push((key, val));
        proof {
            assert(model_of(out@) =~= seq![(keym, valm)]);
            assert(doc_wf(model_of(out@)));
        }
        Some((out, e + 1))
    } else {
        None
    }
}

/// Parse a whole document, exactly as [`spec_parse_doc`] reads it.
#[verifier::loop_isolation(false)]
pub fn parse_doc(s: &str) -> (r: Option<Entries>)
    ensures
        match r {
            Some(d) => spec_parse_doc(s@) == Some(model_of(d@)) && doc_wf(model_of(d@)),
            None => spec_parse_doc(s@) is None,
        },
{
    let n = s.unicode_len();
    let j = skip_ws(s, 0);
    if !(j < n && s.get_char(j) == '{') {
        return None;
    }
    let k = skip_ws(s, j + 1);
    if k < n && s.get_char(k) == '}' {
        if skip_ws(s, k + 1) == n {
            let out: Entries = Vec::new();
            proof {
                assert(model_of(out@) =~= Seq::<(Seq<char>, ValModel)>::empty());
            }
            Some(out)
        } else {
            None
        }
    } else {
        match parse_members(s, j + 1) {
            Some(p) => {
                if skip_ws(s, p.1) == n {
                    Some(p.0)
                } else {
                    None
                }
            },
            None => None,
        }
    }
}

/// Canonical text of one value.
pub open spec fn spec_ser_value(v: ValModel) -> Seq<char> {
    match v {
        ValModel::Null => seq!['n', 'u', 'l', 'l'],
        ValModel::Bool(b) => if b {
            seq!['t', 'r', 'u', 'e']
        } else {
            seq!['f', 'a', 'l', 's', 'e']
        },
        ValModel::Num(m) => spec_encode(m),
        ValModel::Str(t) => seq!['"'] + t + seq!['"'],
        ValModel::Raw(t) => t,
    }
}

/// Canonical text of the member list, comma separated.
pub open spec fn spec_ser_members(m: Seq<(Seq<char>, ValModel)>) -> Seq<char>
    decreases m.len(),
{
    if m.len() == 0 {
        Seq::empty()
    } else {
        let head = seq!['"'] + m[0].0 + seq!['"', ':'] + spec_ser_value(m[0].1);
        if m.len() == 1 {
            head
        } else {
            head + seq![','] + spec_ser_members(m.drop_first())
        }
    }
}

/// Canonical text of a whole document.
pub open spec fn spec_ser_doc(m: Seq<(Seq<char>, ValModel)>) -> Seq<char> {
    seq!['{'] + spec_ser_members(m) + seq!['}']
}

proof fn lemma_ser_members_push(m: Seq<(Seq<char>, ValModel)>, x: (Seq<char>, ValModel))
    ensures
        spec_ser_members(m.push(x)) == if m.len() == 0 {
            seq!['"'] + x.0 + seq!['"', ':'] + spec_ser_value(x.1)
        } else {
            spec_ser_members(m) + seq![','] + (seq!['"'] + x.0 + seq!['"', ':'] + spec_ser_value(
                x.1,
            ))
        },
    decreases m.len(),
{
    if m.len() == 0 {
        assert(m.push(x).len() == 1);
        assert(m.push(x)[0] == x);
    } else {
        assert(m.push(x).drop_first() =~= m.drop_first().push(x));
        lemma_ser_members_push(m.drop_first(), x);
        assert(m.push(x)[0] == m[0]);
        if m.len() == 1 {
            assert(m.drop_first().len() == 0);
        }
    }
}

fn append_value(out: &mut String, v: &Value)
    requires
        val_wf(v@),
    ensures
        final(out)@ == old(out)@ + spec_ser_value(v@),
{
    match v {
        Value::Null => {
            proof {
                reveal_strlit("null");
                assert("null"@ =~= seq!['n', 'u', 'l', 'l']);
            }
            out.append("null");
        },
        Value::Bool(b) => {
            if *b {
                proof {
                    reveal_strlit("true");
                    assert("true"@ =~= seq!['t', 'r', 'u', 'e']);
                }
                out.append("true");
            } else {
                proof {
                    reveal_strlit("false");
                    assert("false"@ =~= seq!['f', 'a', 'l', 's', 'e']);
                }
                out.append("false");
            }
        },
        Value::Num(d) => {
            let t = d.encode();
            out.append(t.as_str());
        },
        Value::Str(t) => {
            proof {
                reveal_strlit("\"");
                assert("\""@ =~= seq!['"']);
            }
            out.append("\"");
            out.append(t.as_str());
            out.append("\"");
            proof {
                assert(old(out)@ + seq!['"'] + t@ + seq!['"'] =~= old(out)@ + (seq!['"'] + t@
                    + seq!['"']));
            }
        },
        Value::Raw(t) => {
            out.append(t.as_str());
        },
    }
}

/// Encode a document in the canonical compact form, exactly
/// [`spec_ser_doc`] of its model.
#[verifier::loop_isolation(false)]
#[verifier::rlimit(60)]
pub fn encode_doc(entries: &Entries) -> (r: String)
    requires
        doc_wf(model_of(entries@)),
    ensures
        r@ == spec_ser_doc(model_of(entries@)),
{
    let ghost m = model_of(entries@);
    let mut out = String::new();
    proof {
        reveal_strlit("{");
        reveal_strlit("}");
        reveal_strlit("\"");
        reveal_strlit("\":");
        reveal_strlit(",");
        assert("{"@ =~= seq!['{']);
        assert("}"@ =~= seq!['}']);
        assert("\""@ =~= seq!['"']);
        assert("\":"@ =~= seq!['"', ':']);
        assert(","@ =~= seq![',']);
    }
    out.append("{");
    let mut i: usize = 0;
    proof {
        assert(m.take(0) =~= Seq::<(Seq<char>, ValModel)>::empty());
    }
    while i < entries.len()
        invariant
            i <= entries@.len(),
            out@ == seq!['{'] + spec_ser_members(m.take(i as int)),
        decreases entries@.len() - i,
    {
        if i > 0 {
            out.append(",");
        }
        let pair = &entries[i];
        let k = &pair.0;
        let v = &pair.1;
        proof {
            assert(entries@[i as int].1 == *v);
            assert forall|t: int| 0 <= t < entries@.len() implies model_of(entries@)[t] == (
            entries@[t].0@,
            entries@[t].1@,
            ) by {}
            assert(plain_text(model_of(entries@)[i as int].0) && val_wf(
                model_of(entries@)[i as int].1,
            ));
        }
        out.append("\"");
        out.append(k.as_str());
        out.append("\":");
        append_value(&mut out, v);
        proof {
            assert(m.take(i + 1) =~= m.take(i as int).push(m[i as int]));
            lemma_ser_members_push(m.take(i as int), m[i as int]);
            assert(m[i as int].0 == k@);
            assert(m[i as int].1 == v@);
            assert(m.take(i as int).len() == i);
            assert(out@ =~= seq!['{'] + spec_ser_members(m.take(i + 1)));
        }
        i += 1;
    }
    proof {
        assert(m.take(entries@.len() as int) =~= m);
    }
    out.append("}");
    out
}


/// The first member with the given key, if any.
pub open spec fn spec_lookup(m: Seq<(Seq<char>, ValModel)>, k: Seq<char>) -> Option<ValModel>
    decreases m.len(),
{
    if m.len() == 0 {
        None
    } else if m[0].0 == k {
        Some(m[0].1)
    } else {
        spec_lookup(m.drop_first(), k)
    }
}

/// Every value a well-formed document holds is itself well formed.
pub proof fn lemma_lookup_wf(m: Seq<(Seq<char>, ValModel)>, k: Seq<char>)
    requires
        doc_wf(m),
    ensures
        spec_lookup(m, k) matches Some(v) ==> val_wf(v),
    decreases m.len(),
{
    if m.len() > 0 {
        assert(val_wf(m[0].1));
        if m[0].0 != k {
            assert forall|t: int| 0 <= t < m.drop_first().len() implies plain_text(
                (#[trigger] m.drop_first()[t]).0,
            ) && val_wf(m.drop_first()[t].1) by {
                assert(m.drop_first()[t] == m[t + 1]);
            }
            lemma_lookup_wf(m.drop_first(), k);
        }
    }
}

/// Find a member by key and hand back an owned copy of its value.
#[verifier::loop_isolation(false)]
pub fn lookup_value(entries: &Entries, key: &str) -> (r: Option<Value>)
    ensures
        match r {
            Some(v) => spec_lookup(model_of(entries@), key@) == Some(v@),
            None => spec_lookup(model_of(entries@), key@) is None,
        },
{
    let mut i: usize = 0;
    proof {
        assert(model_of(entries@).skip(0) =~= model_of(entries@));
    }
    while i < entries.len()
        invariant
            i <= entries@.len(),
            spec_lookup(model_of(entries@), key@) == spec_lookup(
                model_of(entries@).skip(i as int),
                key@,
            ),
        decreases entries@.len() - i,
    {
        let pair = &entries[i];
        proof {
            let m = model_of(entries@);
            assert(m.skip(i as int).len() == m.len() - i);
            assert(m.skip(i as int)[0] == m[i as int]);
            assert(m.skip(i as int).drop_first() =~= m.skip(i + 1));
            assert(entries@[i as int].0 == pair.0 && entries@[i as int].1 == pair.1);
            assert(m[i as int] == (entries@[i as int].0@, entries@[i as int].1@));
        }
        if str_eq(pair.0.as_str(), key) {
            return Some(clone_value(&pair.1));
        }
        i += 1;
    }
    proof {
        assert(model_of(entries@).skip(entries@.len() as int) =~= Seq::<
            (Seq<char>, ValModel),
        >::empty());
    }
    None
}

} // verus!
