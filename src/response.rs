//! The JSON envelopes of responses: one per command, a list for a pipeline,
//! and for a transaction either a list or one error.
use vstd::prelude::*;
use crate::error::ApiError;
use crate::json::JsonValue;
use crate::reply::{encode_reply, encodes, encoding_is_base64, is_base64_name, Reply};
use crate::text::string_of;
use vstd::pervasive::VecAdditionalExecFns;

verus! {

/// The outcome of one command: a result or an error, never both and never
/// neither.
#[derive(Debug, PartialEq)]
pub struct ApiResponse {
    pub result: Option<JsonValue>,
    pub error: Option<String>,
}

/// The envelopes of a pipeline, one per command, in the order of the
/// commands.
#[derive(Debug, PartialEq)]
pub struct PipelineApiResponse(pub Vec<ApiResponse>);

/// The outcome of a transaction: an envelope per command when it ran, or a
/// single error envelope when it failed as a whole.
#[derive(Debug, PartialEq)]
pub enum TransactionApiResponseType {
    TransactionResponse(Vec<ApiResponse>),
    TransactionError(ApiResponse),
}

/// The response of a transaction.
#[derive(Debug, PartialEq)]
pub struct TransactionApiResponse(pub TransactionApiResponseType);

impl ApiResponse {
    /// Exactly one of the two fields is there.
    pub open spec fn wf(&self) -> bool {
        (self.result is Some) != (self.error is Some)
    }
}

/// How an error reads in an envelope: a store error as `ERR` and the store's
/// detail, any other error as its own message.
pub open spec fn error_text(e: ApiError) -> Seq<char> {
    match e {
        ApiError::RedisError(se) => match se.detail {
            Some(d) => seq!['E', 'R', 'R', ' '] + d@,
            None => seq!['E', 'R', 'R'],
        },
        _ => e.message_spec(),
    }
}

/// `resp` is the envelope of `result`: the JSON form of the reply, or the
/// text of the error.
pub open spec fn envelope_of(result: Result<Reply, ApiError>, resp: ApiResponse, base64: bool) -> bool {
    match result {
        Ok(r) => {
            &&& resp.error is None
            &&& resp.result matches Some(j) && encodes(r, j, base64)
        },
        Err(e) => {
            &&& resp.result is None
            &&& resp.error matches Some(t) && t@ == error_text(e)
        },
    }
}

/// `resp` is the response of a transaction whose outcome is `result`: on
/// success an envelope per item of an array reply, in order (one envelope
/// for any other reply); on failure the single error envelope.
pub open spec fn transaction_response_of(
    result: Result<Reply, ApiError>,
    resp: TransactionApiResponse,
    base64: bool,
) -> bool {
    match result {
        Ok(Reply::Array(items)) => {
            &&& resp.0 matches TransactionApiResponseType::TransactionResponse(list)
            &&& list@.len() == items@.len()
            &&& forall|i: int|
                0 <= i < items@.len() ==> envelope_of(Ok(#[trigger] items@[i]), list@[i], base64)
        },
        Ok(r) => {
            &&& resp.0 matches TransactionApiResponseType::TransactionResponse(list)
            &&& list@.len() == 1
            &&& envelope_of(Ok(r), list@[0], base64)
        },
        Err(e) => {
            &&& resp.0 matches TransactionApiResponseType::TransactionError(one)
            &&& envelope_of(Err(e), one, base64)
        },
    }
}

/// A reply that the encoder can take, or an error.
pub open spec fn result_fits(result: Result<Reply, ApiError>) -> bool {
    result matches Ok(r) ==> r.fits()
}

fn error_string(e: &ApiError) -> (r: String)
    ensures
        r@ == error_text(*e),
{
    match e {
        ApiError::RedisError(se) => match &se.detail {
            Some(d) => {
                let p = ['E', 'R', 'R', ' '];
                let mut r = string_of(p.as_slice());
                r.append(d.as_str());
                r
            },
            None => {
                let p = ['E', 'R', 'R'];
                string_of(p.as_slice())
            },
        },
        _ => e.message(),
    }
}

/// Builds the envelopes of one request, in the encoding that it chose.
pub struct ResponseBuilder {
    encoding: String,
}

impl ResponseBuilder {
    /// The encoding that the builder writes replies in.
    pub closed spec fn encoding_view(&self) -> Seq<char> {
        self.encoding@
    }

    /// Whether replies are written in base64 mode.
    pub open spec fn base64(&self) -> bool {
        is_base64_name(self.encoding_view())
    }

    /// A builder for the encoding `encoding` (`base64`, or anything else for
    /// text).
    pub fn new(encoding: String) -> (r: ResponseBuilder)
        ensures
            r.encoding_view() == encoding@,
    {
        ResponseBuilder { encoding }
    }

    fn envelope_ok(&self, r: &Reply, base64: bool) -> (resp: ApiResponse)
        requires
            r.fits(),
        ensures
            resp.error is None,
            resp.result matches Some(j) && encodes(*r, j, base64),
    {
        ApiResponse { result: Some(encode_reply(r, base64)), error: None }
    }

    /// The envelope of one command's outcome.
    pub fn build(&self, result: Result<Reply, ApiError>) -> (resp: ApiResponse)
        requires
            result_fits(result),
        ensures
            envelope_of(result, resp, self.base64()),
            resp.wf(),
    {
        let base64 = encoding_is_base64(self.encoding.as_str());
        match result {
            Ok(r) => self.envelope_ok(&r, base64),
            Err(e) => ApiResponse { result: None, error: Some(error_string(&e)) },
        }
    }

    /// The envelopes of a pipeline: one for each outcome, in order.
    pub fn build_pipeline(&self, result: Vec<Result<Reply, ApiError>>) -> (resp: PipelineApiResponse)
        requires
            forall|i: int| 0 <= i < result@.len() ==> result_fits(#[trigger] result@[i]),
        ensures
            resp.0@.len() == result@.len(),
            forall|i: int|
                0 <= i < result@.len() ==> envelope_of(result@[i], #[trigger] resp.0@[i], self.base64()),
            forall|i: int| 0 <= i < resp.0@.len() ==> (#[trigger] resp.0@[i]).wf(),
    {
        let ghost all = result@;
        let mut pending = result;
        let n = pending.len();
        let mut list: Vec<ApiResponse> = Vec::new();
        let mut i: usize = 0;
        while i < n
            invariant
                i <= n,
                n == all.len(),
                pending@.len() == n,
                list@.len() == i,
                forall|k: int| i <= k < n ==> pending@[k] == all[k],
                forall|k: int| 0 <= k < n ==> result_fits(#[trigger] all[k]),
                forall|k: int|
                    0 <= k < i ==> envelope_of(all[k], #[trigger] list@[k], self.base64()),
                forall|k: int| 0 <= k < i ==> (#[trigger] list@[k]).wf(),
            decreases n - i,
        {
            let mut taken: Result<Reply, ApiError> = Err(ApiError::NoCommand);
            pending.set_and_swap(i, &mut taken);
            assert(taken == all[i as int]);
            let e = self.build(taken);
            list.push(e);
            i += 1;
        }
        PipelineApiResponse(list)
    }

    /// The response of a transaction: on success, one envelope per item of
    /// the aggregate reply when it is an array (or one envelope for any other
    /// reply); on failure, the single error envelope.
    pub fn build_transaction(&self, result: Result<Reply, ApiError>) -> (resp: TransactionApiResponse)
        requires
            result_fits(result),
        ensures
            transaction_response_of(result, resp, self.base64()),
    {
        let base64 = encoding_is_base64(self.encoding.as_str());
        match result {
            Ok(Reply::Array(items)) => {
                let mut list: Vec<ApiResponse> = Vec::new();
                let n = items.len();
                let mut i: usize = 0;
                while i < n
                    invariant
                        i <= n,
                        n == items@.len(),
                        base64 == self.base64(),
                        list@.len() == i,
                        forall|k: int| 0 <= k < n ==> (#[trigger] items@[k]).fits(),
                        forall|k: int|
                            0 <= k < i ==> envelope_of(
                                Ok(#[trigger] items@[k]),
                                list@[k],
                                self.base64(),
                            ),
                    decreases n - i,
                {
                    let e = self.envelope_ok(&items[i], base64);
                    list.push(e);
                    i += 1;
                }
                TransactionApiResponse(TransactionApiResponseType::TransactionResponse(list))
            },
            Ok(r) => {
                let e = self.envelope_ok(&r, base64);
                let mut list: Vec<ApiResponse> = Vec::new();
                list.push(e);
                TransactionApiResponse(TransactionApiResponseType::TransactionResponse(list))
            },
            Err(e) => {
                let one = ApiResponse { result: None, error: Some(error_string(&e)) };
                TransactionApiResponse(TransactionApiResponseType::TransactionError(one))
            },
        }
    }

    /// An envelope carrying `error`'s own message.
    pub fn error(error: ApiError) -> (resp: ApiResponse)
        ensures
            resp.result is None,
            resp.error matches Some(t) && t@ == error.message_spec(),
    {
        ApiResponse { result: None, error: Some(error.message()) }
    }

    /// An envelope whose result is the string `result`.
    pub fn from_str(result: &str) -> (resp: ApiResponse)
        ensures
            resp.error is None,
            resp.result matches Some(JsonValue::String(s)) && s@ == result@,
    {
        ApiResponse { result: Some(JsonValue::String(result.to_owned())), error: None }
    }
}

} // verus!
