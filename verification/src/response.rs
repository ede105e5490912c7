//! Putting a response together step by step.

use axum::http::{HeaderMap, HeaderName, HeaderValue, StatusCode};
use vstd::prelude::*;

use crate::headers::{
    append_field, append_fields, header_fields, lemma_append_fields_step, lemma_append_no_fields,
    lemma_name_count_grows, name_count, name_text, new_header_map, no_fields, try_append_header,
    value_bytes, Fields, MAX_HEADER_NAMES,
};
use crate::models::{HandlerResult, ProxyResponse, ResponseBody};

verus! {

/// The codes that are HTTP status codes.
pub open spec fn is_status_code(code: u16) -> bool {
    100 <= code <= 999
}

/// `StatusCode::from_u16`: accepts the codes from 100 to 999 and says of any other
/// that it is none.
#[verifier::external_body]
fn check_status_code(code: u16) -> (checked: Result<(), String>)
    ensures
        match checked {
            Ok(_) => is_status_code(code),
            Err(reason) => !is_status_code(code) && reason@ == "invalid status code"@,
        },
{
    match StatusCode::from_u16(code) {
        Ok(_) => Ok(()),
        Err(error) => Err(error.to_string()),
    }
}

/// Status and header fields of a response.
pub struct ResponseHead {
    pub status: u16,
    pub headers: HeaderMap,
}

/// A response being built: its head so far, or the reason why it cannot be
/// built. The first reason stays.
pub struct ResponseBuilder {
    pub head: Result<ResponseHead, String>,
}

/// What a response builder stands for.
pub struct HeadView {
    pub status: u16,
    pub fields: Fields,
}

impl View for ResponseBuilder {
    type V = Result<HeadView, Seq<char>>;

    open spec fn view(&self) -> Result<HeadView, Seq<char>> {
        match self.head {
            Ok(head) => Ok(HeadView { status: head.status, fields: header_fields(head.headers) }),
            Err(reason) => Err(reason@),
        }
    }
}

/// How a builder comes out of having fields appended: with them behind its own
/// fields, or, where that makes more names than fit for certain, without room.
pub open spec fn extended(
    before: Result<HeadView, Seq<char>>,
    more: Fields,
    after: Result<HeadView, Seq<char>>,
) -> bool {
    match before {
        Err(_) => after == before,
        Ok(head) => {
            let all = append_fields(head.fields, more);
            ||| after == Ok::<HeadView, Seq<char>>(HeadView { status: head.status, fields: all })
            ||| name_count(all) > MAX_HEADER_NAMES && after == Err::<HeadView, Seq<char>>(
                "max size reached"@,
            )
        },
    }
}

impl ResponseBuilder {
    /// A response with status 200 and no header fields.
    pub fn new() -> (builder: ResponseBuilder)
        ensures
            builder@ == Ok::<HeadView, Seq<char>>(HeadView { status: 200, fields: no_fields() }),
    {
        ResponseBuilder { head: Ok(ResponseHead { status: 200, headers: new_header_map() }) }
    }

    /// Sets the status.
    pub fn status(self, status: u16) -> (builder: ResponseBuilder)
        ensures
            builder@ == match self@ {
                Ok(head) => if is_status_code(status) {
                    Ok(HeadView { status, fields: head.fields })
                } else {
                    Err("invalid status code"@)
                },
                Err(reason) => Err(reason),
            },
    {
        match self.head {
            Ok(head) => match check_status_code(status) {
                Ok(_) => ResponseBuilder {
                    head: Ok(ResponseHead { status, headers: head.headers }),
                },
                Err(reason) => ResponseBuilder { head: Err(reason) },
            },
            Err(reason) => ResponseBuilder { head: Err(reason) },
        }
    }

    /// Gives the reason why the response cannot be built.
    pub fn fail(self, reason: String) -> (builder: ResponseBuilder)
        ensures
            builder@ == match self@ {
                Ok(_) => Err::<HeadView, Seq<char>>(reason@),
                Err(first) => Err(first),
            },
    {
        match self.head {
            Ok(_) => ResponseBuilder { head: Err(reason) },
            Err(first) => ResponseBuilder { head: Err(first) },
        }
    }

    /// Appends a header field.
    pub fn header(self, name: &HeaderName, value: &HeaderValue) -> (builder: ResponseBuilder)
        ensures
            extended(
                self@,
                no_fields().insert(name_text(*name), seq![value_bytes(*value)]),
                builder@,
            ),
            self@ is Ok ==> self@->Ok_0.fields.dom().finite(),
    {
        match self.head {
            Ok(head) => {
                let mut headers = head.headers;
                let ghost before = header_fields(headers);
                let ghost text = name_text(*name);
                let ghost bytes = value_bytes(*value);
                let ghost more = no_fields().insert(text, seq![bytes]);
                let appended = try_append_header(&mut headers, name, value);
                proof {
                    assert(append_field(no_fields(), text, bytes) =~= more);
                    lemma_append_fields_step(before, no_fields(), text, bytes);
                    lemma_append_no_fields(before);
                    assert(before.dom().subset_of(header_fields(headers).dom()));
                    vstd::set_lib::lemma_set_subset_finite(
                        header_fields(headers).dom(),
                        before.dom(),
                    );
                    lemma_name_count_grows(before, more);
                }
                match appended {
                    Ok(_) => ResponseBuilder {
                        head: Ok(ResponseHead { status: head.status, headers }),
                    },
                    Err(reason) => ResponseBuilder { head: Err(reason) },
                }
            },
            Err(reason) => ResponseBuilder { head: Err(reason) },
        }
    }

    /// Finishes the response with a body. A response that cannot be built is an
    /// internal server error.
    pub fn body(self, body: ResponseBody) -> (result: HandlerResult)
        ensures
            match self@ {
                Ok(head) => {
                    &&& result is Ok
                    &&& result->Ok_0.status == head.status
                    &&& result->Ok_0.fields() == head.fields
                    &&& result->Ok_0.body == body
                },
                Err(reason) => {
                    &&& result is Err
                    &&& result->Err_0.0 == 500
                    &&& result->Err_0.1@ == "Response build error: "@ + reason
                },
            },
    {
        match self.head {
            Ok(head) => Ok(ProxyResponse { status: head.status, headers: head.headers, body }),
            Err(reason) => Err(
                (500, "Response build error: ".to_string().concat(reason.as_str())),
            ),
        }
    }
}

} // verus!
