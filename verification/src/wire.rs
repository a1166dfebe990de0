//! The trusted boundary to the JSON and URL collaborators.
//!
//! Everything the query protocol reads out of a response body is projected
//! here, once, into plain values; the decoding rules themselves live in
//! verified code that takes these plain values as arguments.
use serde_json::Value;
use vstd::prelude::*;
use vstd::string::StringExecFns;

verus! {

/// The fields of a server response envelope, as plain values: each field is
/// present iff the response body carries it with the expected JSON type.
/// `items` holds the elements of the `result` array, each re-rendered as its
/// own JSON text.
pub struct RawEnvelope {
    pub error: Option<bool>,
    pub code: Option<u64>,
    pub error_num: Option<u64>,
    pub error_message: Option<String>,
    pub has_more: Option<bool>,
    pub id: Option<String>,
    pub count: Option<u64>,
    pub extra: Option<String>,
    pub items: Option<Vec<String>>,
}

/// Mathematical image of a `RawEnvelope`.
pub struct EnvelopeView {
    pub error: Option<bool>,
    pub code: Option<u64>,
    pub error_num: Option<u64>,
    pub error_message: Option<Seq<char>>,
    pub has_more: Option<bool>,
    pub id: Option<Seq<char>>,
    pub count: Option<u64>,
    pub extra: Option<Seq<char>>,
    pub items: Option<Seq<Seq<char>>>,
}

impl View for RawEnvelope {
    type V = EnvelopeView;

    open spec fn view(&self) -> EnvelopeView {
        EnvelopeView {
            error: self.error,
            code: self.code,
            error_num: self.error_num,
            error_message: self.error_message.deep_view(),
            has_more: self.has_more,
            id: self.id.deep_view(),
            count: self.count,
            extra: self.extra.deep_view(),
            items: self.items.deep_view(),
        }
    }
}

/// What the JSON collaborator finds in a response body: `None` if the body
/// is not a JSON document, otherwise the envelope fields it carries.
pub uninterp spec fn envelope_of(s: Seq<char>) -> Option<EnvelopeView>;

/// Relies on `serde_json::from_str` to parse the body, and on
/// `serde_json::Value::{get, as_bool, as_u64, as_str, as_array}` and
/// `Value`'s `Display` to project the envelope fields; parse and projection
/// depend on the body text alone.
#[verifier::external_body]
pub(crate) fn read_envelope(body: &str) -> (r: Option<RawEnvelope>)
    ensures
        match r {
            Some(e) => envelope_of(body@) == Some(e@),
            None => envelope_of(body@) is None,
        },
{
    let v: Value = serde_json::from_str(body).ok()?;
    let b = |k| v.get(k).and_then(Value::as_bool);
    let u = |k| v.get(k).and_then(Value::as_u64);
    let s = |k| v.get(k).and_then(Value::as_str).map(String::from);
    Some(RawEnvelope {
        error: b("error"),
        code: u("code"),
        error_num: u("errorNum"),
        error_message: s("errorMessage"),
        has_more: b("hasMore"),
        id: s("id"),
        count: u("count"),
        extra: v.get("extra").map(|x| x.to_string()),
        items: v.get("result").and_then(Value::as_array).map(|a| a.iter().map(|x| x.to_string()).collect()),
    })
}

/// What the URL collaborator makes of a relative path resolved against a
/// base address: `None` if the base does not parse or the join fails.
pub uninterp spec fn url_joined(base: Seq<char>, path: Seq<char>) -> Option<Seq<char>>;

/// Relies on `url::Url::parse` and `url::Url::join`: resolving a relative
/// path against an absolute base address depends on the two texts alone.
#[verifier::external_body]
pub(crate) fn resolve_url(base: &str, path: &str) -> (r: Option<String>)
    ensures
        match r {
            Some(u) => url_joined(base@, path@) == Some(u@),
            None => url_joined(base@, path@) is None,
        },
{
    let u = url::Url::parse(base).ok()?.join(path).ok()?;
    Some(String::from(u))
}

/// The quoted, escaped JSON string literal denoting a text.
pub uninterp spec fn json_quoted(s: Seq<char>) -> Seq<char>;

/// Relies on `serde_json::Value`'s `Display`: the JSON string literal form
/// of a text depends on its characters alone.
#[verifier::external_body]
pub(crate) fn json_quote(s: &str) -> (r: String)
    ensures
        r@ == json_quoted(s@),
{
    serde_json::Value::String(String::from(s)).to_string()
}

/// One decimal digit as a character.
pub open spec fn digit_char(d: u64) -> char {
    if d == 0 { '0' }
    else if d == 1 { '1' }
    else if d == 2 { '2' }
    else if d == 3 { '3' }
    else if d == 4 { '4' }
    else if d == 5 { '5' }
    else if d == 6 { '6' }
    else if d == 7 { '7' }
    else if d == 8 { '8' }
    else { '9' }
}

/// The decimal digits of an unsigned integer, most significant first.
pub open spec fn decimal_of(n: u64) -> Seq<char>
    decreases n,
{
    if n < 10 {
        seq![digit_char(n)]
    } else {
        decimal_of(n / 10).push(digit_char(n % 10))
    }
}

/// The text of one decimal digit.
fn digit_str(d: u64) -> (r: &'static str)
    requires
        d < 10,
    ensures
        r@ == seq![digit_char(d)],
{
    proof {
        reveal_strlit("0");
        reveal_strlit("1");
        reveal_strlit("2");
        reveal_strlit("3");
        reveal_strlit("4");
        reveal_strlit("5");
        reveal_strlit("6");
        reveal_strlit("7");
        reveal_strlit("8");
        reveal_strlit("9");
    }
    let r: &'static str = if d == 0 { "0" }
    else if d == 1 { "1" }
    else if d == 2 { "2" }
    else if d == 3 { "3" }
    else if d == 4 { "4" }
    else if d == 5 { "5" }
    else if d == 6 { "6" }
    else if d == 7 { "7" }
    else if d == 8 { "8" }
    else { "9" };
    proof {
        assert(r@ =~= seq![digit_char(d)]);
    }
    r
}

/// Render an unsigned integer as its decimal digits.
pub(crate) fn fmt_u64(n: u64) -> (r: String)
    ensures
        r@ == decimal_of(n),
    decreases n,
{
    if n < 10 {
        String::from_str(digit_str(n))
    } else {
        let mut s = fmt_u64(n / 10);
        s.append(digit_str(n % 10));
        proof {
            assert(decimal_of(n / 10) + seq![digit_char(n % 10)] =~= decimal_of(n / 10).push(
                digit_char(n % 10),
            ));
        }
        s
    }
}

/// Whether and as what a text parses as a JSON unsigned integer.
pub uninterp spec fn u64_of_json(s: Seq<char>) -> Option<u64>;

/// Relies on `serde_json::from_str::<u64>`: whether a text parses as a JSON
/// unsigned integer, and as which one, depends on the text alone.
#[verifier::external_body]
pub(crate) fn parse_u64_json(s: &str) -> (r: Option<u64>)
    ensures
        r == u64_of_json(s@),
{
    serde_json::from_str(s).ok()
}

} // verus!
