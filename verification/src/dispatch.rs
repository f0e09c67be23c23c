//! Dispatch: from a query to the store work it needs, and from the store's
//! answer to the response.
//!
//! The store and the aggregation engine live outside this library. A caller
//! opens the store, asks [`dispatch`] what the query needs from it, does that
//! work, and hands the outcome to [`respond`]. Nothing is kept from one
//! query to the next.
use crate::encode::{
    decode_spec, encode, encode_spec, lemma_decode_inverts_encode, lemma_encoded_len, FrameView,
    HEADER_LEN,
};
use crate::json::{json_array, name_views, to_json};
use crate::query::{QueryMode, RangeQuery, RangeQueryView};
use crate::window::{
    lemma_count_is_exact, lemma_no_windows_outside_range, lemma_stride_is_least, plan, plan_spec,
    plannable, step_size, stride, views, window_count, Coverage, Window, WindowView, MAX_WINDOWS,
};
use vstd::prelude::*;

verus! {

/// The size of the partitions that the store is asked to split itself into
/// before an aggregation. It is a tuning hint and is handed on unchanged.
pub const PARTITION_SIZE: usize = 10_000_000;

/// What a query needs from the store.
#[derive(PartialEq, Eq, Debug)]
pub enum StoreRequest {
    /// The names of the chromosomes, in the store's order.
    Catalog,
    /// The mean over each of `windows`, in their order. `start` and `step`
    /// are the words that the response's header will carry.
    Means { start: u32, step: u32, partition_size: usize, windows: Vec<Window> },
}

/// What a [`StoreRequest`] stands for in contracts.
pub enum StoreRequestView {
    Catalog,
    Means { start: u32, step: u32, partition_size: usize, windows: Seq<WindowView> },
}

impl View for StoreRequest {
    type V = StoreRequestView;

    open spec fn view(&self) -> StoreRequestView {
        match *self {
            StoreRequest::Catalog => StoreRequestView::Catalog,
            StoreRequest::Means { start, step, partition_size, windows } => StoreRequestView::Means {
                start,
                step,
                partition_size,
                windows: views(windows@),
            },
        }
    }
}

/// How the store work ended.
#[derive(PartialEq, Eq, Debug)]
pub enum StoreReply {
    /// The store could not be opened.
    Unavailable,
    /// The store was opened, but reading it or aggregating over it failed.
    Failed,
    /// The names of the chromosomes, in the store's order.
    Catalog(Vec<String>),
    /// One value per window, in the windows' order, each the bit pattern of
    /// a single-precision number.
    Means(Vec<u32>),
}

/// What a [`StoreReply`] stands for in contracts.
pub enum StoreReplyView {
    Unavailable,
    Failed,
    Catalog(Seq<Seq<char>>),
    Means(Seq<u32>),
}

impl View for StoreReply {
    type V = StoreReplyView;

    open spec fn view(&self) -> StoreReplyView {
        match *self {
            StoreReply::Unavailable => StoreReplyView::Unavailable,
            StoreReply::Failed => StoreReplyView::Failed,
            StoreReply::Catalog(names) => StoreReplyView::Catalog(name_views(names@)),
            StoreReply::Means(values) => StoreReplyView::Means(values@),
        }
    }
}

/// The kind of body that a response carries.
#[derive(Clone, Copy, PartialEq, Eq, Structural, Debug)]
pub enum ContentType {
    Json,
    OctetStream,
}

/// The media type that names a kind of body.
pub open spec fn media_type(kind: ContentType) -> Seq<char> {
    match kind {
        ContentType::Json => "application/json"@,
        ContentType::OctetStream => "application/octet-stream"@,
    }
}

impl ContentType {
    /// The media type to send in the response's `content-type` header.
    pub fn as_str(&self) -> (name: &'static str)
        ensures
            name@ == media_type(*self),
    {
        match self {
            ContentType::Json => "application/json",
            ContentType::OctetStream => "application/octet-stream",
        }
    }
}

/// The answer to a query.
#[derive(PartialEq, Eq, Debug)]
pub struct Response {
    pub content_type: ContentType,
    pub body: Vec<u8>,
}

/// What a [`Response`] stands for in contracts.
pub struct ResponseView {
    pub content_type: ContentType,
    pub body: Seq<u8>,
}

impl View for Response {
    type V = ResponseView;

    open spec fn view(&self) -> ResponseView {
        ResponseView { content_type: self.content_type, body: self.body@ }
    }
}

/// Why a query has no response. An error ends its own query only.
#[derive(Clone, Copy, PartialEq, Eq, Structural, Debug)]
pub enum DispatchError {
    /// The store could not be opened.
    StoreUnavailable,
    /// Reading the store or aggregating over it failed.
    StoreFailed,
    /// The store's answer is not an answer to the request: it is of the
    /// other kind, or it does not hold one value per window.
    UnexpectedReply,
    /// The chromosome names could not be written as JSON.
    Serialization,
}

/// The view of an outcome.
pub open spec fn outcome_view(outcome: Result<Response, DispatchError>) -> Result<
    ResponseView,
    DispatchError,
> {
    match outcome {
        Ok(response) => Ok(response@),
        Err(e) => Err(e),
    }
}

/// The low 32 bits of `x`, read as an unsigned number. It is `x` itself
/// where `0 <= x <= u32::MAX`.
pub open spec fn low32(x: int) -> u32 {
    (x % 0x1_0000_0000) as u32
}

/// What a query needs from the store.
///
/// A metadata query needs the catalog, whatever its chromosome and interval
/// are. An aggregate query needs the means over the windows of its interval;
/// the header words are the low 32 bits of its start and of its stride.
pub open spec fn dispatch_spec(query: RangeQueryView, coverage: Coverage) -> StoreRequestView {
    match query.mode {
        QueryMode::Metadata => StoreRequestView::Catalog,
        QueryMode::Aggregate => StoreRequestView::Means {
            start: low32(query.start),
            step: low32(stride(query.start, query.end)),
            partition_size: PARTITION_SIZE,
            windows: plan_spec(query.chromosome, query.start, query.end, coverage),
        },
    }
}

/// The response to a catalog request, given what writing the names as JSON
/// came to.
pub open spec fn catalog_outcome(json: Option<Seq<u8>>) -> Result<ResponseView, DispatchError> {
    match json {
        Some(body) => Ok(ResponseView { content_type: ContentType::Json, body }),
        None => Err(DispatchError::Serialization),
    }
}

/// The outcome of a request, given how the store work ended.
///
/// A store that could not be opened, or that failed, fails the request. A
/// catalog is answered with the names as a JSON array. A list of means is
/// answered with the encoded buffer, provided that there is one value per
/// window. Every other pairing is an unexpected reply.
pub open spec fn respond_spec(request: StoreRequestView, reply: StoreReplyView) -> Result<
    ResponseView,
    DispatchError,
> {
    match reply {
        StoreReplyView::Unavailable => Err(DispatchError::StoreUnavailable),
        StoreReplyView::Failed => Err(DispatchError::StoreFailed),
        StoreReplyView::Catalog(names) => match request {
            StoreRequestView::Catalog => catalog_outcome(json_array(names)),
            StoreRequestView::Means { .. } => Err(DispatchError::UnexpectedReply),
        },
        StoreReplyView::Means(values) => match request {
            StoreRequestView::Means { start, step, windows, .. } => if values.len()
                == windows.len() && values.len() <= u32::MAX {
                Ok(
                    ResponseView {
                        content_type: ContentType::OctetStream,
                        body: encode_spec(start, step, values),
                    },
                )
            } else {
                Err(DispatchError::UnexpectedReply)
            },
            StoreRequestView::Catalog => Err(DispatchError::UnexpectedReply),
        },
    }
}

/// Keeps the low 32 bits of `x`.
pub fn low_word(x: i64) -> (word: u32)
    ensures
        word == low32(x as int),
        0 <= x <= u32::MAX ==> word == x,
{
    assert(x as u32 == (x as int % 0x1_0000_0000)) by (bit_vector);
    #[verifier::truncate]
    (x as u32)
}

/// Decides what a query needs from the store.
pub fn dispatch(query: &RangeQuery, coverage: Coverage) -> (request: StoreRequest)
    ensures
        request@ == dispatch_spec(query@, coverage),
{
    match query.mode {
        QueryMode::Metadata => StoreRequest::Catalog,
        QueryMode::Aggregate => {
            let windows = plan(query.chromosome.as_str(), query.start, query.end, coverage);
            StoreRequest::Means {
                start: low_word(query.start),
                step: low_word(step_size(query.start, query.end)),
                partition_size: PARTITION_SIZE,
                windows,
            }
        },
    }
}

/// Wraps the JSON text of the catalog into a response, or reports that
/// there is none.
pub fn catalog_response(encoded: Result<Vec<u8>, serde_json::Error>) -> (outcome: Result<
    Response,
    DispatchError,
>)
    ensures
        outcome_view(outcome) == catalog_outcome(
            match encoded {
                Ok(bytes) => Some(bytes@),
                Err(_) => None,
            },
        ),
{
    match encoded {
        Ok(body) => Ok(Response { content_type: ContentType::Json, body }),
        Err(_) => Err(DispatchError::Serialization),
    }
}

/// Encodes the values of a range query into a response.
pub fn range_response(start: u32, step: u32, values: &[u32]) -> (response: Response)
    requires
        values.len() <= u32::MAX,
    ensures
        response@ == (ResponseView {
            content_type: ContentType::OctetStream,
            body: encode_spec(start, step, values@),
        }),
{
    Response { content_type: ContentType::OctetStream, body: encode(start, step, values) }
}

/// Turns the outcome of the store work into the outcome of the query.
pub fn respond(request: &StoreRequest, reply: &StoreReply) -> (outcome: Result<
    Response,
    DispatchError,
>)
    ensures
        outcome_view(outcome) == respond_spec(request@, reply@),
{
    match reply {
        StoreReply::Unavailable => Err(DispatchError::StoreUnavailable),
        StoreReply::Failed => Err(DispatchError::StoreFailed),
        StoreReply::Catalog(names) => match request {
            StoreRequest::Catalog => catalog_response(to_json(names)),
            StoreRequest::Means { .. } => Err(DispatchError::UnexpectedReply),
        },
        StoreReply::Means(values) => match request {
            StoreRequest::Means { start, step, windows, .. } => {
                if values.len() == windows.len() && values.len() as u64 <= 0xFFFF_FFFF {
                    Ok(range_response(*start, *step, values.as_slice()))
                } else {
                    Err(DispatchError::UnexpectedReply)
                }
            },
            StoreRequest::Catalog => Err(DispatchError::UnexpectedReply),
        },
    }
}

/// A metadata query asks for the catalog and is answered with the names as
/// JSON, whatever chromosome, interval and coverage come with it.
pub proof fn lemma_metadata_ignores_interval(
    query: RangeQueryView,
    coverage: Coverage,
    names: Seq<Seq<char>>,
)
    requires
        query.mode == QueryMode::Metadata,
    ensures
        dispatch_spec(query, coverage) == StoreRequestView::Catalog,
        respond_spec(dispatch_spec(query, coverage), StoreReplyView::Catalog(names))
            == catalog_outcome(json_array(names)),
{
}

/// An aggregate query over an inverted interval has no windows, and with no
/// values its response is a header alone: twelve bytes, with stride 1 and a
/// count of zero.
pub proof fn lemma_inverted_interval_is_answered_empty(query: RangeQueryView, coverage: Coverage)
    requires
        query.mode == QueryMode::Aggregate,
        query.start > query.end,
    ensures
        plan_spec(query.chromosome, query.start, query.end, coverage) == Seq::<WindowView>::empty(),
        ({
            let body = encode_spec(low32(query.start), 1, Seq::empty());
            &&& respond_spec(
                dispatch_spec(query, coverage),
                StoreReplyView::Means(Seq::empty()),
            ) == Ok::<ResponseView, DispatchError>(
                ResponseView { content_type: ContentType::OctetStream, body },
            )
            &&& body.len() == HEADER_LEN
            &&& decode_spec(body) == Some(
                FrameView { start: low32(query.start), step: 1, values: Seq::empty() },
            )
        }),
{
    lemma_no_windows_outside_range(query.chromosome, query.start, query.end, coverage);
    lemma_encoded_len(low32(query.start), 1, Seq::empty());
    lemma_decode_inverts_encode(low32(query.start), 1, Seq::empty());
}

/// An aggregate query over a plannable interval is answered, once the store
/// gives one value per window, with a buffer that decodes to the interval's
/// start, its stride, and those values in order. The buffer holds at most
/// [`MAX_WINDOWS`] values.
pub proof fn lemma_range_response_decodes(
    query: RangeQueryView,
    coverage: Coverage,
    values: Seq<u32>,
)
    requires
        query.mode == QueryMode::Aggregate,
        plannable(query.start, query.end),
        values.len() == window_count(query.start, query.end),
    ensures
        ({
            let outcome = respond_spec(
                dispatch_spec(query, coverage),
                StoreReplyView::Means(values),
            );
            &&& outcome is Ok
            &&& outcome->Ok_0.content_type == ContentType::OctetStream
            &&& outcome->Ok_0.body.len() == HEADER_LEN + 4 * values.len()
            &&& values.len() <= MAX_WINDOWS
            &&& decode_spec(outcome->Ok_0.body) matches Some(frame)
            &&& frame.start == query.start
            &&& frame.step == stride(query.start, query.end)
            &&& frame.values == values
        }),
{
    lemma_count_is_exact(query.start, query.end, 0);
    lemma_stride_is_least(query.start, query.end);
    let start = low32(query.start);
    let step = low32(stride(query.start, query.end));
    lemma_encoded_len(start, step, values);
    lemma_decode_inverts_encode(start, step, values);
}

/// Asking twice gives the same answer: two queries that read alike ask the
/// store for the same work, and where the store answers alike both times,
/// they end in the same response, byte for byte, or in the same error.
pub proof fn lemma_same_query_same_response(
    first: RangeQuery,
    second: RangeQuery,
    coverage: Coverage,
    first_reply: StoreReply,
    second_reply: StoreReply,
)
    requires
        first@ == second@,
        first_reply@ == second_reply@,
    ensures
        dispatch_spec(first@, coverage) == dispatch_spec(second@, coverage),
        respond_spec(dispatch_spec(first@, coverage), first_reply@) == respond_spec(
            dispatch_spec(second@, coverage),
            second_reply@,
        ),
{
}

} // verus!
