//! The response plan of the file responder.
//!
//! The HTTP layer parses the request (method, `Range` header) and probes the
//! blob (magic, sizes); the decision of what to send — status, byte range,
//! headers, whether to stream and whether to decrypt — is computed here and
//! handed back as a plain record.

use vstd::prelude::*;

verus! {

/// The request method, as far as the responder distinguishes them.
#[derive(Clone, Copy, Debug, PartialEq, Eq, Structural)]
pub enum HttpMethod {
    Get,
    Head,
    /// Anything else is answered `405` with `Allow: GET, HEAD`.
    Other,
}

/// The `Range` header of the request, after the HTTP layer parsed it against
/// the advertised length.
#[derive(Clone, Copy, Debug, PartialEq, Eq, Structural)]
pub enum RangeRequest {
    /// No `Range` header.
    Absent,
    /// The header value was not readable as a string.
    Unreadable,
    /// The header did not parse against the advertised length.
    Malformed,
    /// A satisfiable range of `length` bytes from `start`.
    Span { start: u64, length: u64 },
}

/// What the HTTP layer sends: the status, the byte range to stream, and
/// which headers to attach.
#[derive(Clone, Copy, Debug, PartialEq, Eq, Structural)]
pub struct ResponsePlan {
    /// The HTTP status code.
    pub status: u16,
    /// The first byte of the body range.
    pub offset: u64,
    /// The advertised content length.
    pub length: u64,
    /// The full length of the served entity, for `Content-Range` headers.
    pub total: u64,
    /// Whether to advertise `Accept-Ranges: bytes`.
    pub accept_ranges: bool,
    /// Whether to send `Content-Range: bytes offset-(offset+length-1)/total`.
    pub content_range: bool,
    /// Whether to send `Content-Range: bytes */total` (with status 416).
    pub range_unsatisfiable: bool,
    /// Whether a body is streamed over `[offset, offset + length)`.
    pub include_body: bool,
    /// Whether the body comes from the decrypting stream (valid magic) or
    /// from the raw file.
    pub decrypt: bool,
}

/// The decision table of the responder: methods other than GET and HEAD are
/// `405`; a valid magic serves the unpadded plaintext length, an invalid one
/// the raw file; an unreadable `Range` header is `400`, an unparsable one
/// `416`, a parsed one `206` (on GET, when it is a proper sub-range); HEAD
/// sends headers only.
pub open spec fn plan_spec(
    method: HttpMethod,
    magic_ok: bool,
    raw_len: u64,
    unpadded_len: u64,
    range: RangeRequest,
) -> ResponsePlan {
    let total = if magic_ok {
        unpadded_len
    } else {
        raw_len
    };
    if method is Other {
        ResponsePlan {
            status: 405,
            offset: 0,
            length: 0,
            total: total,
            accept_ranges: false,
            content_range: false,
            range_unsatisfiable: false,
            include_body: false,
            decrypt: false,
        }
    } else {
        match range {
            RangeRequest::Unreadable => ResponsePlan {
                status: 400,
                offset: 0,
                length: total,
                total: total,
                accept_ranges: true,
                content_range: false,
                range_unsatisfiable: false,
                include_body: false,
                decrypt: false,
            },
            RangeRequest::Malformed => ResponsePlan {
                status: 416,
                offset: 0,
                length: total,
                total: total,
                accept_ranges: true,
                content_range: false,
                range_unsatisfiable: true,
                include_body: false,
                decrypt: false,
            },
            RangeRequest::Absent => ResponsePlan {
                status: 200,
                offset: 0,
                length: total,
                total: total,
                accept_ranges: true,
                content_range: false,
                range_unsatisfiable: false,
                include_body: method is Get,
                decrypt: magic_ok,
            },
            RangeRequest::Span { start, length } => ResponsePlan {
                status: if method is Get && (start != 0 || length != total) {
                    206
                } else {
                    200
                },
                offset: start,
                length: length,
                total: total,
                accept_ranges: true,
                content_range: true,
                range_unsatisfiable: false,
                include_body: method is Get,
                decrypt: magic_ok,
            },
        }
    }
}

/// Decide the response for a request on a file of `raw_len` bytes whose blob
/// header reported `magic_ok`, serving `unpadded_len` plaintext bytes when
/// the magic matched.
pub fn plan_response(
    method: HttpMethod,
    magic_ok: bool,
    raw_len: u64,
    unpadded_len: u64,
    range: RangeRequest,
) -> (r: ResponsePlan)
    ensures
        r == plan_spec(method, magic_ok, raw_len, unpadded_len, range),
{
    let total: u64 = if magic_ok {
        unpadded_len
    } else {
        raw_len
    };
    match method {
        HttpMethod::Other => ResponsePlan {
            status: 405,
            offset: 0,
            length: 0,
            total: total,
            accept_ranges: false,
            content_range: false,
            range_unsatisfiable: false,
            include_body: false,
            decrypt: false,
        },
        _ => match range {
            RangeRequest::Unreadable => ResponsePlan {
                status: 400,
                offset: 0,
                length: total,
                total: total,
                accept_ranges: true,
                content_range: false,
                range_unsatisfiable: false,
                include_body: false,
                decrypt: false,
            },
            RangeRequest::Malformed => ResponsePlan {
                status: 416,
                offset: 0,
                length: total,
                total: total,
                accept_ranges: true,
                content_range: false,
                range_unsatisfiable: true,
                include_body: false,
                decrypt: false,
            },
            RangeRequest::Absent => ResponsePlan {
                status: 200,
                offset: 0,
                length: total,
                total: total,
                accept_ranges: true,
                content_range: false,
                range_unsatisfiable: false,
                include_body: matches!(method, HttpMethod::Get),
                decrypt: magic_ok,
            },
            RangeRequest::Span { start, length } => ResponsePlan {
                status: if matches!(method, HttpMethod::Get) && (start != 0 || length != total) {
                    206
                } else {
                    200
                },
                offset: start,
                length: length,
                total: total,
                accept_ranges: true,
                content_range: true,
                range_unsatisfiable: false,
                include_body: matches!(method, HttpMethod::Get),
                decrypt: magic_ok,
            },
        },
    }
}

} // verus!
