//! The response envelope decoder and the typed, paginated cursor.
use vstd::prelude::*;

use crate::error::{ClientError, DecodeFault, ErrorView};
use crate::wire::{envelope_of, read_envelope, EnvelopeView, RawEnvelope};
use vstd::string::StringExecFns;

verus! {

broadcast use vstd::seq_lib::group_seq_properties;

/// A result item type that can be decoded from the JSON text of one item.
///
/// `decoded` is the decoding relation itself: what, if anything, a given
/// JSON text denotes for this type. `decode_json` must realize exactly that
/// relation.
pub trait Decodable: View + Sized {
    spec fn decoded(s: Seq<char>) -> Option<Self::V>;

    fn decode_json(s: &str) -> (r: Result<Self, DecodeFault>)
        ensures
            match r {
                Ok(v) => Self::decoded(s@) == Some(v@),
                Err(_) => Self::decoded(s@) is None,
            },
    ;
}

/// A result item kept as its raw JSON text: every item text decodes, to
/// itself. Use it to paginate without committing to an item shape.
#[derive(Debug, Clone, PartialEq, Eq)]
pub struct RawJson {
    pub text: String,
}

impl View for RawJson {
    type V = Seq<char>;

    open spec fn view(&self) -> Seq<char> {
        self.text@
    }
}

impl Decodable for RawJson {
    open spec fn decoded(s: Seq<char>) -> Option<Seq<char>> {
        Some(s)
    }

    fn decode_json(s: &str) -> (r: Result<RawJson, DecodeFault>) {
        Ok(RawJson { text: s.to_owned() })
    }
}

impl Decodable for u64 {
    open spec fn decoded(s: Seq<char>) -> Option<u64> {
        crate::wire::u64_of_json(s)
    }

    fn decode_json(s: &str) -> (r: Result<u64, DecodeFault>) {
        match crate::wire::parse_u64_json(s) {
            Some(n) => Ok(n),
            None => Err(DecodeFault { message: String::from_str("expected an unsigned integer") }),
        }
    }
}

/// One page of a paginated result set: the page's items in server-delivered
/// order, plus the continuation metadata.
#[derive(Debug)]
pub struct Cursor<T> {
    /// The page's items, in the order the server delivered them.
    pub result: Vec<T>,
    /// True iff further pages exist.
    pub more: bool,
    /// Continuation identifier; present whenever `more` is true.
    pub id: Option<String>,
    /// Total result count; only meaningful on the first page.
    pub count: Option<u64>,
    /// Execution statistics and warnings, kept as raw JSON text; opaque here.
    pub extra: Option<String>,
}

/// Mathematical image of a `Cursor<T>` whose items view as `V`.
pub struct CursorView<V> {
    pub items: Seq<V>,
    pub more: bool,
    pub id: Option<Seq<char>>,
    pub count: Option<u64>,
    pub extra: Option<Seq<char>>,
}

impl<T: View> View for Cursor<T> {
    type V = CursorView<T::V>;

    open spec fn view(&self) -> CursorView<T::V> {
        CursorView {
            items: self.result@.map(|i: int, t: T| t@),
            more: self.more,
            id: self.id.deep_view(),
            count: self.count,
            extra: self.extra.deep_view(),
        }
    }
}

/// Whether every item text decodes for `T`.
pub open spec fn all_decode<T: Decodable>(ss: Seq<Seq<char>>) -> bool {
    forall|i: int| 0 <= i < ss.len() ==> (#[trigger] T::decoded(ss[i])) is Some
}

/// The decoded items, assuming they all decode.
pub open spec fn decoded_seq<T: Decodable>(ss: Seq<Seq<char>>) -> Seq<T::V> {
    Seq::new(ss.len(), |i: int| T::decoded(ss[i]).unwrap())
}

/// The server failure reported by an envelope with `error: true`: the HTTP
/// status from `code`, the server's error number and message; absent fields
/// default to zero and the empty message.
pub open spec fn server_error_view(e: EnvelopeView) -> ErrorView {
    ErrorView::Server {
        status: match e.code { Some(n) => n, None => 0 },
        error_num: match e.error_num { Some(n) => n, None => 0 },
        message: match e.error_message { Some(m) => m, None => Seq::empty() },
    }
}

/// What decoding one page of a paginated response must yield:
/// - no JSON document, or no boolean `error` discriminant: `Malformed`;
/// - `error` true: the reported `Server` failure;
/// - `error` false but no boolean `hasMore` or no `result` array: `Schema`;
/// - `hasMore` true without a continuation id: `Malformed` — the protocol
///   invariant is violated and the page must be rejected, not defaulted;
/// - otherwise the page, iff every item of `result` decodes for `T`,
///   else `Schema`.
pub open spec fn cursor_spec<T: Decodable>(s: Seq<char>) -> Result<CursorView<T::V>, ErrorView> {
    match envelope_of(s) {
        None => Err(ErrorView::Malformed),
        Some(e) => match e.error {
            None => Err(ErrorView::Malformed),
            Some(true) => Err(server_error_view(e)),
            Some(false) => match e.has_more {
                None => Err(ErrorView::Schema),
                Some(more) => if more && e.id is None {
                    Err(ErrorView::Malformed)
                } else {
                    match e.items {
                        None => Err(ErrorView::Schema),
                        Some(its) => if all_decode::<T>(its) {
                            Ok(CursorView {
                                items: decoded_seq::<T>(its),
                                more,
                                id: e.id,
                                count: e.count,
                                extra: e.extra,
                            })
                        } else {
                            Err(ErrorView::Schema)
                        },
                    }
                },
            },
        },
    }
}

/// What decoding a plain (non-cursor) response must yield: `Malformed` when
/// the body is not a JSON document, the reported `Server` failure when the
/// envelope says `error: true`, and otherwise the whole body decoded as `T`,
/// with `Schema` when it does not fit.
pub open spec fn response_spec<T: Decodable>(s: Seq<char>) -> Result<T::V, ErrorView> {
    match envelope_of(s) {
        None => Err(ErrorView::Malformed),
        Some(e) => match e.error {
            Some(true) => Err(server_error_view(e)),
            _ => match T::decoded(s) {
                Some(v) => Ok(v),
                None => Err(ErrorView::Schema),
            },
        },
    }
}

/// The protocol invariant of every decoded page: a page that announces a
/// successor carries a continuation id. A body that violates it does not
/// decode to a page at all.
pub proof fn lemma_cursor_invariant<T: Decodable>(s: Seq<char>)
    ensures
        match cursor_spec::<T>(s) {
            Ok(c) => c.more ==> c.id is Some,
            Err(_) => true,
        },
{
}

/// Decode every item text of one page, in order.
fn decode_items<T: Decodable>(items: &Vec<String>) -> (r: Result<Vec<T>, DecodeFault>)
    ensures
        match r {
            Ok(v) => all_decode::<T>(items.deep_view())
                && v@.map(|i: int, t: T| t@) == decoded_seq::<T>(items.deep_view()),
            Err(_) => !all_decode::<T>(items.deep_view()),
        },
{
    let mut out: Vec<T> = Vec::new();
    let mut idx: usize = 0;
    while idx < items.len()
        invariant
            idx <= items.len(),
            out@.len() == idx,
            forall|j: int| 0 <= j < idx ==> (#[trigger] T::decoded(items.deep_view()[j])) is Some,
            forall|j: int| 0 <= j < idx ==> (#[trigger] out@[j]@) == T::decoded(items.deep_view()[j]).unwrap(),
        decreases items.len() - idx,
    {
        match T::decode_json(items[idx].as_str()) {
            Ok(v) => {
                out.push(v);
            },
            Err(f) => {
                assert(T::decoded(items.deep_view()[idx as int]) is None);
                return Err(f);
            },
        }
        idx = idx + 1;
    }
    assert(out@.map(|i: int, t: T| t@) =~= decoded_seq::<T>(items.deep_view()));
    Ok(out)
}

/// Decode one page of a paginated query response, realizing `cursor_spec`
/// exactly. On success the cursor upholds the protocol invariant: `more`
/// implies the continuation id is present.
pub fn decode_cursor<T: Decodable>(body: &str) -> (r: Result<Cursor<T>, ClientError>)
    ensures
        match r {
            Ok(c) => cursor_spec::<T>(body@) == Result::<CursorView<T::V>, ErrorView>::Ok(c@),
            Err(e) => cursor_spec::<T>(body@) == Result::<CursorView<T::V>, ErrorView>::Err(e@),
        },
        match r {
            Ok(c) => c.more ==> c.id is Some,
            Err(_) => true,
        },
{
    let env = match read_envelope(body) {
        Some(e) => e,
        None => {
            return Err(ClientError::MalformedResponse);
        },
    };
    let RawEnvelope { error, code, error_num, error_message, has_more, id, count, extra, items } = env;
    match error {
        None => Err(ClientError::MalformedResponse),
        Some(true) => Err(ClientError::ServerError {
            status: match code { Some(n) => n, None => 0 },
            error_num: match error_num { Some(n) => n, None => 0 },
            message: match error_message { Some(m) => m, None => String::new() },
        }),
        Some(false) => match has_more {
            None => Err(ClientError::SchemaMismatch),
            Some(more) => {
                if more && id.is_none() {
                    return Err(ClientError::MalformedResponse);
                }
                match items {
                    None => Err(ClientError::SchemaMismatch),
                    Some(its) => match decode_items::<T>(&its) {
                        Ok(result) => Ok(Cursor { result, more, id, count, extra }),
                        Err(_) => Err(ClientError::SchemaMismatch),
                    },
                }
            },
        },
    }
}

/// Decode a plain (non-cursor) response body as one value of `T`,
/// realizing `response_spec` exactly.
pub fn decode_response<T: Decodable>(body: &str) -> (r: Result<T, ClientError>)
    ensures
        match r {
            Ok(v) => response_spec::<T>(body@) == Result::<T::V, ErrorView>::Ok(v@),
            Err(e) => response_spec::<T>(body@) == Result::<T::V, ErrorView>::Err(e@),
        },
{
    let env = match read_envelope(body) {
        Some(e) => e,
        None => {
            return Err(ClientError::MalformedResponse);
        },
    };
    let RawEnvelope { error, code, error_num, error_message, .. } = env;
    if let Some(true) = error {
        return Err(ClientError::ServerError {
            status: match code { Some(n) => n, None => 0 },
            error_num: match error_num { Some(n) => n, None => 0 },
            message: match error_message { Some(m) => m, None => String::new() },
        });
    }
    match T::decode_json(body) {
        Ok(v) => Ok(v),
        Err(_) => Err(ClientError::SchemaMismatch),
    }
}

} // verus!

