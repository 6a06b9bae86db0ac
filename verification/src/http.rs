//! Header lines and status codes shared by the route table and the request
//! handler.

use vstd::prelude::*;
use vstd::string::StringSliceAdditionalSpecFns;

verus! {

/// The header names that the core reads or writes. Transports turn a variant
/// into its lower-case wire form when serializing a response.
#[derive(Clone, Copy, PartialEq, Eq, Structural, Debug)]
pub enum HeaderName {
    Allow,
    CacheControl,
    ContentEncoding,
    ContentLength,
    ContentSecurityPolicy,
    ContentType,
    CrossOriginEmbedderPolicy,
    CrossOriginOpenerPolicy,
    CrossOriginResourcePolicy,
    ETag,
    IfMatch,
    IfNoneMatch,
    Location,
    ServiceWorkerAllowed,
    StrictTransportSecurity,
    XContentTypeOptions,
    XFrameOptions,
    XXssProtection,
}

/// A header value: either bytes computed while building the table, or a
/// borrowed constant. Both are seen as a byte sequence in specifications.
pub enum OwnedOrStatic {
    Owned(Vec<u8>),
    Static(&'static str),
}

impl View for OwnedOrStatic {
    type V = Seq<u8>;

    open spec fn view(&self) -> Seq<u8> {
        match self {
            OwnedOrStatic::Owned(v) => v@,
            OwnedOrStatic::Static(s) => s.spec_bytes(),
        }
    }
}

impl OwnedOrStatic {
    /// The value as a byte slice.
    pub fn as_slice(&self) -> (r: &[u8])
        ensures
            r@ == self@,
    {
        match self {
            OwnedOrStatic::Owned(v) => v.as_slice(),
            OwnedOrStatic::Static(s) => s.as_bytes(),
        }
    }

    /// A copy that holds the same bytes.
    pub fn duplicate(&self) -> (r: Self)
        ensures
            r@ == self@,
    {
        match self {
            OwnedOrStatic::Owned(v) => {
                let mut c: Vec<u8> = Vec::new();
                let mut i: usize = 0;
                while i < v.len()
                    invariant
                        i <= v.len(),
                        c@ == v@.subrange(0, i as int),
                    decreases v.len() - i,
                {
                    c.push(v[i]);
                    i = i + 1;
                }
                proof {
                    assert(c@ =~= v@);
                }
                OwnedOrStatic::Owned(c)
            },
            OwnedOrStatic::Static(s) => OwnedOrStatic::Static(s),
        }
    }
}

/// What a header line means: its name and the bytes of its value.
pub struct LineModel {
    pub key: HeaderName,
    pub value: Seq<u8>,
}

/// One ordered header line. Lines with the same name may repeat; insertion
/// order is preserved and observable.
pub struct Line {
    pub key: HeaderName,
    pub value: OwnedOrStatic,
}

impl View for Line {
    type V = LineModel;

    open spec fn view(&self) -> LineModel {
        LineModel { key: self.key, value: self.value@ }
    }
}

impl Line {
    /// A line whose value was computed while building the table.
    pub fn with_owned_value(key: HeaderName, value: Vec<u8>) -> (r: Self)
        ensures
            r@ == (LineModel { key, value: value@ }),
    {
        Line { key, value: OwnedOrStatic::Owned(value) }
    }

    /// A line whose value is a borrowed constant.
    pub fn with_slice_value(key: HeaderName, value: &'static str) -> (r: Self)
        ensures
            r@ == (LineModel { key, value: value.spec_bytes() }),
    {
        Line { key, value: OwnedOrStatic::Static(value) }
    }

    /// A copy that holds the same name and bytes.
    pub fn duplicate(&self) -> (r: Self)
        ensures
            r@ == self@,
    {
        Line { key: self.key, value: self.value.duplicate() }
    }
}

/// The sequence of line meanings of a header list.
pub open spec fn lines_view(s: Seq<Line>) -> Seq<LineModel> {
    s.map_values(|l: Line| l@)
}

/// The status codes a response can carry.
#[derive(Clone, Copy, PartialEq, Eq, Structural, Debug)]
pub enum StatusCode {
    OK,
    NoContent,
    NotModified,
    TemporaryRedirect,
    PermanentRedirect,
    BadRequest,
    NotFound,
    MethodNotAllowed,
    PreconditionFailed,
}

impl StatusCode {
    /// The numeric value of the status code.
    pub open spec fn spec_code(self) -> u16 {
        match self {
            StatusCode::OK => 200,
            StatusCode::NoContent => 204,
            StatusCode::NotModified => 304,
            StatusCode::TemporaryRedirect => 307,
            StatusCode::PermanentRedirect => 308,
            StatusCode::BadRequest => 400,
            StatusCode::NotFound => 404,
            StatusCode::MethodNotAllowed => 405,
            StatusCode::PreconditionFailed => 412,
        }
    }

    /// The numeric value of the status code.
    pub fn code(self) -> (c: u16)
        ensures
            c == self.spec_code(),
    {
        match self {
            StatusCode::OK => 200,
            StatusCode::NoContent => 204,
            StatusCode::NotModified => 304,
            StatusCode::TemporaryRedirect => 307,
            StatusCode::PermanentRedirect => 308,
            StatusCode::BadRequest => 400,
            StatusCode::NotFound => 404,
            StatusCode::MethodNotAllowed => 405,
            StatusCode::PreconditionFailed => 412,
        }
    }
}

} // verus!
