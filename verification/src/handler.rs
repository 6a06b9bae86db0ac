//! The immutable route table and the request-serving state machine.

use vstd::prelude::*;
use vstd::slice::slice_subrange;
use vstd::slice::slice_to_vec;
use vstd::string::StrSliceExecFns;
use vstd::string::StringExecFns;
use vstd::string::StringSliceAdditionalSpecFns;
use vstd::utf8::encode_utf8;
use crate::compression::brotli_decompressed_crc32;
use crate::compression::brotli_encoded;
use crate::compression::compress_brotli;
use crate::compression::decompress_entry;
use crate::compression::opt_bytes_view;
use crate::compression::res_bytes_view;
use crate::compression::spec_brotli_crc32;
use crate::compression::spec_decode;
use crate::digits::decimal_usize;
use crate::digits::hex_u32;
use crate::digits::spec_decimal;
use crate::digits::spec_hex;
use crate::errors::Error;
use crate::http::HeaderName;
use crate::http::Line;
use crate::http::LineModel;
use crate::http::StatusCode;
use crate::http::lines_view;
use crate::path::extension;
use crate::path::filename;
use crate::path::has_hidden_segment;
use crate::path::path;
use crate::path::spec_extension;
use crate::path::spec_filename;
use crate::path::spec_hidden_name;
use crate::path::spec_route_path;
use crate::text::bytes_eq;
use crate::text::bytes_to_vec;
use crate::text::chars_eq;
use crate::text::is_char_prefix;
use crate::text::str_starts_with;
use crate::zip::CdEntry;
use crate::zip::CdEntryModel;
use crate::zip::LocalFile;
use crate::zip::local_crc32;
use crate::zip::local_method;
use crate::zip::local_payload;
use crate::zip::local_uncompressed_size;
use crate::zip::parse_local_file;
use crate::zip::valid_local_at;

verus! {

/// What a type-policy decision means: the response headers to attach,
/// whether the entry may be re-encoded with the general-purpose compressor,
/// and whether its content is a literal redirect target.
pub struct HeadersAndCompressionModel {
    pub headers: Seq<LineModel>,
    pub compressible: bool,
    pub redirection: bool,
}

/// A type-policy decision for one entry.
pub struct HeadersAndCompression {
    pub headers: Vec<Line>,
    pub compressible: bool,
    pub redirection: bool,
}

impl View for HeadersAndCompression {
    type V = HeadersAndCompressionModel;

    open spec fn view(&self) -> HeadersAndCompressionModel {
        HeadersAndCompressionModel {
            headers: lines_view(self.headers@),
            compressible: self.compressible,
            redirection: self.redirection,
        }
    }
}

/// A policy decision, seen at the model level.
pub open spec fn hac_view(r: Option<HeadersAndCompression>) -> Option<HeadersAndCompressionModel> {
    match r {
        Some(h) => Some(h@),
        None => None,
    }
}

/// The capability the build consumes: decides per (file name, extension)
/// whether an entry is served and with which headers, and supplies the fixed
/// header set of error responses.
pub trait HeaderSelector {
    /// What the decision for a (file name, extension) pair is.
    spec fn spec_headers_for(&self, filename: Seq<char>, extension: Seq<char>) -> Option<
        HeadersAndCompressionModel,
    >;

    /// What the error header set is.
    spec fn spec_error_headers(&self) -> Seq<LineModel>;

    /// The decision for a (file name, extension) pair; `None` means the
    /// entry is not served.
    fn headers_for_extension(&self, filename: &str, extension: &str) -> (r: Option<
        HeadersAndCompression,
    >)
        ensures
            hac_view(r) == self.spec_headers_for(filename@, extension@),
    ;

    /// The headers attached to error responses.
    fn error_headers(&self) -> (r: Vec<Line>)
        ensures
            lines_view(r@) == self.spec_error_headers(),
    ;
}

/// What a served entry means: its ordered headers, its optional body bytes,
/// and its optional cache validator.
pub struct EntryModel {
    pub headers: Seq<LineModel>,
    pub content: Option<Seq<u8>>,
    pub etag: Option<Seq<char>>,
}

/// One served entry of the route table.
pub struct Entry {
    pub headers: Vec<Line>,
    pub content: Option<Vec<u8>>,
    pub etag: Option<String>,
}

impl View for Entry {
    type V = EntryModel;

    open spec fn view(&self) -> EntryModel {
        EntryModel {
            headers: lines_view(self.headers@),
            content: match self.content {
                Some(ref v) => Some(v@),
                None => None,
            },
            etag: match self.etag {
                Some(ref s) => Some(s@),
                None => None,
            },
        }
    }
}

/// A fresh copy of a header list, same meaning.
pub fn duplicate_lines(v: &Vec<Line>) -> (r: Vec<Line>)
    ensures
        lines_view(r@) == lines_view(v@),
{
    let mut out: Vec<Line> = Vec::new();
    let mut i: usize = 0;
    while i < v.len()
        invariant
            i <= v.len(),
            out@.len() == i,
            forall|j: int| 0 <= j < i ==> (#[trigger] out@[j])@ == (v@[j])@,
        decreases v.len() - i,
    {
        out.push(v[i].duplicate());
        i = i + 1;
    }
    proof {
        assert(lines_view(out@) =~= lines_view(v@)) by {
            assert forall|j: int| 0 <= j < out@.len() implies lines_view(out@)[j] == lines_view(
                v@,
            )[j] by {
                assert((out@[j])@ == (v@[j])@);
            }
        }
    }
    out
}

impl Entry {
    /// A fresh copy of the entry, same meaning.
    pub fn duplicate(&self) -> (r: Self)
        ensures
            r@ == self@,
    {
        let headers = duplicate_lines(&self.headers);
        let content = match &self.content {
            Some(v) => Some(bytes_to_vec(v.as_slice())),
            None => None,
        };
        let etag = match &self.etag {
            Some(s) => Some(s.clone()),
            None => None,
        };
        Entry { headers, content, etag }
    }
}

/// The immutable mapping from a normalized URL path to its entry. Built
/// once; lookups never change it.
pub struct RouteTable {
    pairs: Vec<(String, Entry)>,
}

/// The mapping a pair list denotes: later pairs win.
pub open spec fn pairs_map(s: Seq<(String, Entry)>) -> Map<Seq<char>, EntryModel>
    decreases s.len(),
{
    if s.len() == 0 {
        Map::empty()
    } else {
        pairs_map(s.drop_last()).insert(s.last().0@, s.last().1@)
    }
}

impl View for RouteTable {
    type V = Map<Seq<char>, EntryModel>;

    closed spec fn view(&self) -> Map<Seq<char>, EntryModel> {
        pairs_map(self.pairs@)
    }
}

proof fn lemma_pairs_map_last_match(s: Seq<(String, Entry)>, i: int)
    requires
        0 <= i < s.len(),
        forall|j: int| i < j < s.len() ==> (#[trigger] s[j].0)@ != s[i].0@,
    ensures
        pairs_map(s).contains_key(s[i].0@),
        pairs_map(s)[s[i].0@] == s[i].1@,
    decreases s.len(),
{
    if i == s.len() - 1 {
    } else {
        assert(s.drop_last()[i] == s[i]);
        assert(forall|j: int|
            i < j < s.drop_last().len() ==> (#[trigger] s.drop_last()[j].0)@ != s.drop_last()[i].0@)
            by {
            assert(forall|j: int| 0 <= j < s.len() - 1 ==> #[trigger] s.drop_last()[j] == s[j]);
        }
        lemma_pairs_map_last_match(s.drop_last(), i);
        assert(s.last().0@ != s[i].0@);
    }
}

proof fn lemma_pairs_map_absent(s: Seq<(String, Entry)>, k: Seq<char>)
    requires
        forall|j: int| 0 <= j < s.len() ==> (#[trigger] s[j].0)@ != k,
    ensures
        !pairs_map(s).contains_key(k),
    decreases s.len(),
{
    if s.len() > 0 {
        assert(forall|j: int| 0 <= j < s.len() - 1 ==> #[trigger] s.drop_last()[j] == s[j]);
        lemma_pairs_map_absent(s.drop_last(), k);
    }
}

impl RouteTable {
    /// An empty table.
    pub fn new() -> (r: Self)
        ensures
            r@ == Map::<Seq<char>, EntryModel>::empty(),
    {
        RouteTable { pairs: Vec::new() }
    }

    /// Binds `key` to `value`; an earlier binding of the same key is
    /// superseded.
    pub fn insert(&mut self, key: String, value: Entry)
        ensures
            final(self)@ == old(self)@.insert(key@, value@),
    {
        self.pairs.push((key, value));
        proof {
            assert(self.pairs@.drop_last() =~= old(self).pairs@);
        }
    }

    /// The entry bound to `key`, if any.
    pub fn get(&self, key: &str) -> (r: Option<&Entry>)
        ensures
            match r {
                Some(e) => self@.contains_key(key@) && e@ == self@[key@],
                None => !self@.contains_key(key@),
            },
    {
        let n = self.pairs.len();
        let mut i: usize = n;
        while i > 0
            invariant
                i <= n,
                n == self.pairs@.len(),
                forall|j: int| i <= j < n ==> (#[trigger] self.pairs@[j].0)@ != key@,
            decreases i,
        {
            let pair = &self.pairs[i - 1];
            if chars_eq(pair.0.as_str(), key) {
                proof {
                    lemma_pairs_map_last_match(self.pairs@, i - 1);
                }
                return Some(&pair.1);
            }
            i = i - 1;
        }
        proof {
            lemma_pairs_map_absent(self.pairs@, key@);
        }
        None
    }
}

/// What a handler means: its route table and its error header set.
pub struct HandlerModel {
    pub paths: Map<Seq<char>, EntryModel>,
    pub error_headers: Seq<LineModel>,
}

/// The immutable serving state: the route table and the fixed error header
/// set. Built once by the builder; requests only read it.
pub struct Handler {
    pub paths: RouteTable,
    pub error_headers: Vec<Line>,
}

impl View for Handler {
    type V = HandlerModel;

    open spec fn view(&self) -> HandlerModel {
        HandlerModel { paths: self.paths@, error_headers: lines_view(self.error_headers@) }
    }
}

/// A successful route lookup, holding on to the entry it found.
pub struct Accepted<'a>(pub(crate) &'a Entry);

impl<'a> View for Accepted<'a> {
    type V = EntryModel;

    closed spec fn view(&self) -> EntryModel {
        (*self.0)@
    }
}

impl<'a> Accepted<'a> {
    /// The entry that was found.
    pub fn entry(&self) -> (r: &'a Entry)
        ensures
            r@ == self@,
    {
        self.0
    }
}

impl Handler {
    /// The entry served at `path`, if any.
    pub fn entry(&self, path: &str) -> (r: Option<&Entry>)
        ensures
            match r {
                Some(e) => self@.paths.contains_key(path@) && e@ == self@.paths[path@],
                None => !self@.paths.contains_key(path@),
            },
    {
        self.paths.get(path)
    }

    /// Accepts `path` when the table serves it; the token holds the entry
    /// served there.
    pub fn accept(&self, path: &str) -> (r: Option<Accepted>)
        ensures
            match r {
                Some(a) => self@.paths.contains_key(path@) && a@ == self@.paths[path@],
                None => !self@.paths.contains_key(path@),
            },
    {
        match self.paths.get(path) {
            Some(e) => Some(Accepted(e)),
            None => None,
        }
    }
}

/// Whether some line in `headers` carries the name `k`.
pub open spec fn has_key(headers: Seq<LineModel>, k: HeaderName) -> bool {
    exists|i: int| 0 <= i < headers.len() && (#[trigger] headers[i]).key == k
}

/// Whether a line survives the trimming applied to responses that carry no
/// body.
pub open spec fn keeps_in_trim(l: LineModel) -> bool {
    l.key != HeaderName::ContentLength && l.key != HeaderName::ContentEncoding
}

/// Headers with `Content-Length` and `Content-Encoding` removed.
pub open spec fn trim_headers(h: Seq<LineModel>) -> Seq<LineModel> {
    h.filter(|l: LineModel| keeps_in_trim(l))
}

/// The bytes of the `GET` method token.
pub open spec fn get_token() -> Seq<u8> {
    seq![0x47u8, 0x45u8, 0x54u8]
}

/// The bytes of the `HEAD` method token.
pub open spec fn head_token() -> Seq<u8> {
    seq![0x48u8, 0x45u8, 0x41u8, 0x44u8]
}

/// The bytes of the literal `0`.
pub open spec fn zero_token() -> Seq<u8> {
    seq![0x30u8]
}

/// An optional borrowed byte slice, seen as an optional byte sequence.
pub open spec fn opt_slice_view(o: Option<&[u8]>) -> Option<Seq<u8>> {
    match o {
        Some(v) => Some(v@),
        None => None,
    }
}

/// What a response descriptor means.
pub struct ResponseModel {
    pub status: StatusCode,
    pub headers: Seq<LineModel>,
    pub body: Option<Seq<u8>>,
}

/// A fully specified response: status, ordered headers, and an optional
/// body. A transport writes it out verbatim.
pub struct Response {
    pub status: StatusCode,
    pub headers: Vec<Line>,
    pub body: Option<Vec<u8>>,
}

impl View for Response {
    type V = ResponseModel;

    open spec fn view(&self) -> ResponseModel {
        ResponseModel {
            status: self.status,
            headers: lines_view(self.headers@),
            body: match self.body {
                Some(ref v) => Some(v@),
                None => None,
            },
        }
    }
}

/// An error response: the fixed error header set and no body.
pub open spec fn spec_error_response(h: HandlerModel, status: StatusCode) -> ResponseModel {
    ResponseModel { status, headers: h.error_headers, body: None }
}

/// The response for a request against table `h`: the conditional GET/HEAD
/// state machine over the looked-up entry.
pub open spec fn spec_handle(
    h: HandlerModel,
    method: Seq<u8>,
    path: Seq<char>,
    content_length: Option<Seq<u8>>,
    if_none_match: Option<Seq<u8>>,
    if_match: Option<Seq<u8>>,
) -> ResponseModel {
    if content_length matches Some(v) && v != zero_token() {
        spec_error_response(h, StatusCode::BadRequest)
    } else if method != get_token() && method != head_token() {
        spec_error_response(h, StatusCode::MethodNotAllowed)
    } else if !h.paths.contains_key(path) {
        spec_error_response(h, StatusCode::NotFound)
    } else {
        let e = h.paths[path];
        match e.etag {
            None => ResponseModel {
                status: StatusCode::PermanentRedirect,
                headers: e.headers,
                body: None,
            },
            Some(tag) => {
                let tag_bytes = encode_utf8(tag);
                if if_none_match == Some(tag_bytes) {
                    ResponseModel {
                        status: StatusCode::NotModified,
                        headers: trim_headers(e.headers),
                        body: None,
                    }
                } else if if_match matches Some(v) && v != tag_bytes {
                    ResponseModel {
                        status: StatusCode::PreconditionFailed,
                        headers: trim_headers(e.headers),
                        body: None,
                    }
                } else {
                    match e.content {
                        Some(body) => ResponseModel {
                            status: StatusCode::OK,
                            headers: e.headers,
                            body: if method == get_token() {
                                Some(body)
                            } else {
                                None
                            },
                        },
                        None => if has_key(e.headers, HeaderName::Location) {
                            ResponseModel {
                                status: StatusCode::TemporaryRedirect,
                                headers: e.headers,
                                body: None,
                            }
                        } else {
                            ResponseModel {
                                status: StatusCode::NoContent,
                                headers: trim_headers(e.headers),
                                body: None,
                            }
                        },
                    }
                }
            },
        }
    }
}

fn is_zero_token(v: &[u8]) -> (r: bool)
    ensures
        r == (v@ == zero_token()),
{
    if v.len() == 1 && v[0] == 0x30u8 {
        proof {
            assert(v@ =~= zero_token());
        }
        true
    } else {
        proof {
            if v@ == zero_token() {
                assert(v@.len() == 1 && v@[0] == 0x30u8);
            }
        }
        false
    }
}

fn is_get_token(m: &[u8]) -> (r: bool)
    ensures
        r == (m@ == get_token()),
{
    if m.len() == 3 && m[0] == 0x47u8 && m[1] == 0x45u8 && m[2] == 0x54u8 {
        proof {
            assert(m@ =~= get_token());
        }
        true
    } else {
        proof {
            if m@ == get_token() {
                assert(m@.len() == 3 && m@[0] == 0x47u8 && m@[1] == 0x45u8 && m@[2] == 0x54u8);
            }
        }
        false
    }
}

fn is_head_token(m: &[u8]) -> (r: bool)
    ensures
        r == (m@ == head_token()),
{
    if m.len() == 4 && m[0] == 0x48u8 && m[1] == 0x45u8 && m[2] == 0x41u8 && m[3] == 0x44u8 {
        proof {
            assert(m@ =~= head_token());
        }
        true
    } else {
        proof {
            if m@ == head_token() {
                assert(m@.len() == 4 && m@[0] == 0x48u8 && m@[1] == 0x45u8 && m@[2] == 0x41u8
                    && m@[3] == 0x44u8);
            }
        }
        false
    }
}

/// Whether some line in `v` carries the name `k`.
pub fn headers_contain(v: &Vec<Line>, k: HeaderName) -> (r: bool)
    ensures
        r == has_key(lines_view(v@), k),
{
    let mut i: usize = 0;
    while i < v.len()
        invariant
            i <= v.len(),
            forall|j: int| 0 <= j < i ==> (#[trigger] v@[j]).key != k,
        decreases v.len() - i,
    {
        if v[i].key == k {
            proof {
                assert(lines_view(v@)[i as int].key == k);
            }
            return true;
        }
        i = i + 1;
    }
    proof {
        if has_key(lines_view(v@), k) {
            let j = choose|j: int|
                0 <= j < lines_view(v@).len() && (#[trigger] lines_view(v@)[j]).key == k;
            assert((v@[j]).key == k);
        }
    }
    false
}

/// A copy of `v` with `Content-Length` and `Content-Encoding` lines removed.
fn trimmed_lines(v: &Vec<Line>) -> (r: Vec<Line>)
    ensures
        lines_view(r@) == trim_headers(lines_view(v@)),
{
    let mut out: Vec<Line> = Vec::new();
    let mut i: usize = 0;
    proof {
        assert(v@.take(0) =~= Seq::<Line>::empty());
        assert(lines_view(v@.take(0)) =~= Seq::<LineModel>::empty());
        assert(trim_headers(lines_view(v@.take(0))) =~= Seq::<LineModel>::empty()) by {
            reveal(Seq::filter);
        }
    }
    while i < v.len()
        invariant
            i <= v.len(),
            lines_view(out@) == trim_headers(lines_view(v@.take(i as int))),
        decreases v.len() - i,
    {
        let line = &v[i];
        let keep = match line.key {
            HeaderName::ContentLength => false,
            HeaderName::ContentEncoding => false,
            _ => true,
        };
        proof {
            broadcast use Seq::lemma_filter_push;
            broadcast use Seq::lemma_push_map_commute;

            assert(v@.take(i + 1 as int) =~= v@.take(i as int).push(v@[i as int]));
            assert(keep == keeps_in_trim((v@[i as int])@));
        }
        if keep {
            out.push(line.duplicate());
            proof {
                broadcast use Seq::lemma_filter_push;
                broadcast use Seq::lemma_push_map_commute;

                assert(lines_view(out@) =~= trim_headers(lines_view(v@.take(i + 1 as int))));
            }
        } else {
            proof {
                broadcast use Seq::lemma_filter_push;
                broadcast use Seq::lemma_push_map_commute;

                assert(lines_view(out@) =~= trim_headers(lines_view(v@.take(i + 1 as int))));
            }
        }
        i = i + 1;
    }
    proof {
        assert(v@.take(v@.len() as int) =~= v@);
    }
    out
}

impl Handler {
    fn error_response(&self, status: StatusCode) -> (r: Response)
        ensures
            r@ == spec_error_response(self@, status),
    {
        Response { status, headers: duplicate_lines(&self.error_headers), body: None }
    }

    /// Serves one request against the table: a pure function of the table
    /// and the request facts, never an error, never a panic.
    pub fn handle(
        &self,
        method: &[u8],
        path: &str,
        content_length: Option<&[u8]>,
        if_none_match: Option<&[u8]>,
        if_match: Option<&[u8]>,
    ) -> (r: Response)
        ensures
            r@ == spec_handle(
                self@,
                method@,
                path@,
                opt_slice_view(content_length),
                opt_slice_view(if_none_match),
                opt_slice_view(if_match),
            ),
    {
        if let Some(v) = content_length {
            if !is_zero_token(v) {
                return self.error_response(StatusCode::BadRequest);
            }
        }
        let get = is_get_token(method);
        if !get && !is_head_token(method) {
            return self.error_response(StatusCode::MethodNotAllowed);
        }
        match self.paths.get(path) {
            None => self.error_response(StatusCode::NotFound),
            Some(e) => {
                match &e.etag {
                    None => Response {
                        status: StatusCode::PermanentRedirect,
                        headers: duplicate_lines(&e.headers),
                        body: None,
                    },
                    Some(tag) => {
                        let tag_bytes: &[u8] = tag.as_str().as_bytes();
                        let inm_hit = match if_none_match {
                            Some(v) => bytes_eq(v, tag_bytes),
                            None => false,
                        };
                        if inm_hit {
                            Response {
                                status: StatusCode::NotModified,
                                headers: trimmed_lines(&e.headers),
                                body: None,
                            }
                        } else {
                            let im_miss = match if_match {
                                Some(v) => !bytes_eq(v, tag_bytes),
                                None => false,
                            };
                            if im_miss {
                                Response {
                                    status: StatusCode::PreconditionFailed,
                                    headers: trimmed_lines(&e.headers),
                                    body: None,
                                }
                            } else {
                                match &e.content {
                                    Some(body) => Response {
                                        status: StatusCode::OK,
                                        headers: duplicate_lines(&e.headers),
                                        body: if get {
                                            Some(bytes_to_vec(body.as_slice()))
                                        } else {
                                            None
                                        },
                                    },
                                    None => {
                                        if headers_contain(&e.headers, HeaderName::Location) {
                                            Response {
                                                status: StatusCode::TemporaryRedirect,
                                                headers: duplicate_lines(&e.headers),
                                                body: None,
                                            }
                                        } else {
                                            Response {
                                                status: StatusCode::NoContent,
                                                headers: trimmed_lines(&e.headers),
                                                body: None,
                                            }
                                        }
                                    },
                                }
                            }
                        }
                    },
                }
            },
        }
    }
}

/// A conditional request whose `If-None-Match` equals the entry's validator
/// is answered `304 Not Modified`, without a body, and with `Content-Length`
/// and `Content-Encoding` absent from the response headers.
pub proof fn lemma_if_none_match_yields_not_modified(
    h: HandlerModel,
    method: Seq<u8>,
    path: Seq<char>,
    content_length: Option<Seq<u8>>,
    if_match: Option<Seq<u8>>,
    tag: Seq<char>,
)
    requires
        content_length is None || content_length == Some(zero_token()),
        method == get_token() || method == head_token(),
        h.paths.contains_key(path),
        h.paths[path].etag == Some(tag),
    ensures
        ({
            let r = spec_handle(h, method, path, content_length, Some(encode_utf8(tag)), if_match);
            &&& r.status == StatusCode::NotModified
            &&& !has_key(r.headers, HeaderName::ContentLength)
            &&& !has_key(r.headers, HeaderName::ContentEncoding)
            &&& r.body is None
        }),
{
    broadcast use Seq::lemma_filter_pred;

    let r = spec_handle(h, method, path, content_length, Some(encode_utf8(tag)), if_match);
    assert(r.headers == trim_headers(h.paths[path].headers));
    if has_key(r.headers, HeaderName::ContentLength) {
        let i = choose|i: int|
            0 <= i < r.headers.len() && (#[trigger] r.headers[i]).key == HeaderName::ContentLength;
        assert(keeps_in_trim(r.headers[i]));
    }
    if has_key(r.headers, HeaderName::ContentEncoding) {
        let i = choose|i: int|
            0 <= i < r.headers.len() && (#[trigger] r.headers[i]).key
                == HeaderName::ContentEncoding;
        assert(keeps_in_trim(r.headers[i]));
    }
}

/// `HEAD` on an entry that `GET` answers `200 OK` yields the same status and
/// the same headers as the `GET`, but never a body.
pub proof fn lemma_head_matches_get(
    h: HandlerModel,
    path: Seq<char>,
    content_length: Option<Seq<u8>>,
    if_none_match: Option<Seq<u8>>,
    if_match: Option<Seq<u8>>,
)
    requires
        spec_handle(h, get_token(), path, content_length, if_none_match, if_match).status
            == StatusCode::OK,
    ensures
        ({
            let g = spec_handle(h, get_token(), path, content_length, if_none_match, if_match);
            let d = spec_handle(h, head_token(), path, content_length, if_none_match, if_match);
            &&& d.status == g.status
            &&& d.headers == g.headers
            &&& d.body is None
        }),
{
    assert(head_token() != get_token()) by {
        assert(head_token().len() == 4);
        assert(get_token().len() == 3);
    }
}

/// Whether a byte is ASCII whitespace.
pub open spec fn is_ws(b: u8) -> bool {
    b == 0x20 || b == 0x09 || b == 0x0a || b == 0x0c || b == 0x0d
}

/// The first index at or after `i` holding ASCII whitespace, or the length
/// when there is none.
pub open spec fn first_ws(s: Seq<u8>, i: int) -> int
    decreases s.len() - i,
    when 0 <= i <= s.len()
{
    if i >= s.len() {
        i
    } else if is_ws(s[i]) {
        i
    } else {
        first_ws(s, i + 1)
    }
}

fn find_first_ws(v: &[u8]) -> (r: usize)
    ensures
        r == first_ws(v@, 0),
        r <= v@.len(),
{
    let n = v.len();
    let mut i: usize = 0;
    while i < n
        invariant
            i <= n,
            n == v@.len(),
            first_ws(v@, 0) == first_ws(v@, i as int),
        decreases n - i,
    {
        let c = v[i];
        if c == 0x20u8 || c == 0x09u8 || c == 0x0au8 || c == 0x0cu8 || c == 0x0du8 {
            return i;
        }
        i = i + 1;
    }
    n
}

fn starts_with_dot(s: &str) -> (r: bool)
    ensures
        r == (s@.len() > 0 && s@[0] == '.'),
{
    let n = s.unicode_len();
    n > 0 && s.get_char(0) == '.'
}

fn has_slash_dot(s: &str) -> (r: bool)
    ensures
        r == has_hidden_segment(s@),
{
    let n = s.unicode_len();
    if n < 2 {
        return false;
    }
    let mut i: usize = 0;
    while i + 1 < n
        invariant
            i + 1 <= n,
            n == s@.len(),
            forall|j: int| 0 <= j < i ==> !(#[trigger] s@[j] == '/' && s@[j + 1] == '.'),
        decreases n - i,
    {
        if s.get_char(i) == '/' && s.get_char(i + 1) == '.' {
            return true;
        }
        i = i + 1;
    }
    proof {
        if has_hidden_segment(s@) {
            let j = choose|j: int|
                0 <= j && j + 1 < s@.len() && #[trigger] s@[j] == '/' && s@[j + 1] == '.';
            assert(!(s@[j] == '/' && s@[j + 1] == '.'));
        }
    }
    false
}

/// An optional owned string, seen as an optional character sequence.
pub open spec fn opt_string_view(o: Option<String>) -> Option<Seq<char>> {
    match o {
        Some(s) => Some(s@),
        None => None,
    }
}

fn opt_string_eq(a: &Option<String>, b: &Option<String>) -> (r: bool)
    ensures
        r == (opt_string_view(*a) == opt_string_view(*b)),
{
    match (a, b) {
        (Some(x), Some(y)) => chars_eq(x.as_str(), y.as_str()),
        (None, None) => true,
        _ => false,
    }
}

/// A central-directory list, seen at the model level.
pub open spec fn cds_view(s: Seq<CdEntry>) -> Seq<CdEntryModel> {
    s.map_values(|e: CdEntry| e@)
}

/// An optional previous handler, seen at the model level.
pub open spec fn prev_view(p: Option<&Handler>) -> Option<HandlerModel> {
    match p {
        Some(h) => Some(h@),
        None => None,
    }
}

/// A build outcome for one entry, seen at the model level.
pub open spec fn build_result_view(r: Result<Option<(String, Entry)>, Error>) -> Result<
    Option<(Seq<char>, EntryModel)>,
    Error,
> {
    match r {
        Ok(Some((s, e))) => Ok(Some((s@, e@))),
        Ok(None) => Ok(None),
        Err(e) => Err(e),
    }
}

/// Whether `ent` is an acceptable compressed sibling: it carries the sibling
/// name, its local header parses, its payload decodes, and the decoded bytes
/// form a brotli stream whose decompressed CRC32 equals `crc`.
pub open spec fn sibling_accepts(
    b: Seq<u8>,
    ent: CdEntryModel,
    sibling_name: Seq<char>,
    crc: u32,
) -> bool {
    let p = ent.local_header_position as int;
    &&& ent.name == sibling_name
    &&& valid_local_at(b, p)
    &&& spec_decode(local_method(b, p), local_payload(b, p), local_uncompressed_size(b, p)) is Ok
    &&& spec_brotli_crc32(sibling_decoded(b, ent)) == Some(crc)
}

/// The decoded payload of a sibling entry.
pub open spec fn sibling_decoded(b: Seq<u8>, ent: CdEntryModel) -> Seq<u8> {
    let p = ent.local_header_position as int;
    spec_decode(local_method(b, p), local_payload(b, p), local_uncompressed_size(b, p))->Ok_0
}

/// The decoded payload of the first acceptable sibling in `entries`, if any.
pub open spec fn spec_sibling_search(
    b: Seq<u8>,
    entries: Seq<CdEntryModel>,
    sibling_name: Seq<char>,
    crc: u32,
) -> Option<Seq<u8>>
    decreases entries.len(),
{
    if entries.len() == 0 {
        None
    } else if sibling_accepts(b, entries[0], sibling_name, crc) {
        Some(sibling_decoded(b, entries[0]))
    } else {
        spec_sibling_search(b, entries.drop_first(), sibling_name, crc)
    }
}

fn find_sibling(b: &[u8], entries: &Vec<CdEntry>, sibling_name: &str, crc: u32) -> (r: Option<
    Vec<u8>,
>)
    ensures
        opt_bytes_view(r) == spec_sibling_search(b@, cds_view(entries@), sibling_name@, crc),
{
    let ghost all = cds_view(entries@);
    let n = entries.len();
    let mut i: usize = 0;
    proof {
        assert(all.skip(0) =~= all);
    }
    while i < n
        invariant
            i <= n,
            n == entries@.len(),
            all == cds_view(entries@),
            all.len() == n,
            spec_sibling_search(b@, all, sibling_name@, crc) == spec_sibling_search(
                b@,
                all.skip(i as int),
                sibling_name@,
                crc,
            ),
        decreases n - i,
    {
        proof {
            assert(all.skip(i as int)[0] == all[i as int]);
            assert(all.skip(i as int).drop_first() =~= all.skip(i + 1 as int));
            assert(all[i as int] == (entries@[i as int])@);
        }
        let ent = &entries[i];
        if chars_eq(ent.name.as_str(), sibling_name) {
            match parse_local_file(b, ent.local_header_position) {
                Ok(f) => {
                    match decompress_entry(f) {
                        Ok(dec) => {
                            match brotli_decompressed_crc32(dec.as_slice()) {
                                Some(c) => {
                                    if c == crc {
                                        proof {
                                            assert(sibling_accepts(
                                                b@,
                                                all[i as int],
                                                sibling_name@,
                                                crc,
                                            ));
                                            assert(dec@ == sibling_decoded(b@, all[i as int]));
                                        }
                                        return Some(dec);
                                    }
                                    proof {
                                        assert(!sibling_accepts(b@, all[i as int], sibling_name@, crc));
                                    }
                                },
                                None => {
                                    proof {
                                        assert(!sibling_accepts(b@, all[i as int], sibling_name@, crc));
                                    }
                                },
                            }
                        },
                        Err(_) => {
                            proof {
                                assert(!sibling_accepts(b@, all[i as int], sibling_name@, crc));
                            }
                        },
                    }
                },
                Err(_) => {
                    proof {
                        assert(!sibling_accepts(b@, all[i as int], sibling_name@, crc));
                    }
                },
            }
        } else {
            proof {
                assert(!sibling_accepts(b@, all[i as int], sibling_name@, crc));
            }
        }
        i = i + 1;
    }
    proof {
        assert(all.skip(n as int) =~= Seq::<CdEntryModel>::empty());
    }
    None
}

/// The bytes a previous table lets the build reuse for sibling name `sib`:
/// the stored content of its entry under that name, provided the validator
/// matches and there are stored bytes at all.
pub open spec fn spec_prev_reuse(
    prev: Option<HandlerModel>,
    sib: Seq<char>,
    etag: Option<Seq<char>>,
) -> Option<Seq<u8>> {
    if prev matches Some(pm) && pm.paths.contains_key(sib) && pm.paths[sib].etag == etag
        && pm.paths[sib].content is Some {
        Some(prev.unwrap().paths[sib].content.unwrap())
    } else {
        None
    }
}

/// The served content bytes of an accepted entry at local-header position
/// `p`: for a compressible entry a verified sibling's decoded payload, else
/// a previous table's stored bytes under the sibling name with the same
/// validator, else a fresh encoding of the raw bytes; for a non-compressible
/// entry the raw bytes themselves.
pub open spec fn spec_content(
    b: Seq<u8>,
    name: Seq<char>,
    entries: Seq<CdEntryModel>,
    prev: Option<HandlerModel>,
    compressible: bool,
    p: int,
    etag: Option<Seq<char>>,
) -> Result<Seq<u8>, Error> {
    let decoded = spec_decode(local_method(b, p), local_payload(b, p), local_uncompressed_size(b, p));
    if !compressible {
        decoded
    } else {
        let sib = name + ".br"@;
        let crc = local_crc32(b, p) as u32;
        match spec_sibling_search(b, entries, sib, crc) {
            Some(bytes) => Ok(bytes),
            None => match spec_prev_reuse(prev, sib, etag) {
                Some(bytes) => Ok(bytes),
                None => match decoded {
                    Err(e) => Err(e),
                    Ok(raw) => match brotli_encoded(raw) {
                        Some(enc) => Ok(enc),
                        None => Err(Error::CorruptArchive),
                    },
                },
            },
        }
    }
}

fn compute_content(
    b: &[u8],
    name: &str,
    entries: &Vec<CdEntry>,
    previous: Option<&Handler>,
    compressible: bool,
    lf: LocalFile,
    etag: &Option<String>,
    Ghost(p): Ghost<int>,
) -> (r: Result<Vec<u8>, Error>)
    requires
        valid_local_at(b@, p),
        lf.method == local_method(b@, p),
        lf.crc32 == local_crc32(b@, p),
        lf.uncompressed_size == local_uncompressed_size(b@, p),
        lf.payload@ == local_payload(b@, p),
    ensures
        res_bytes_view(r) == spec_content(
            b@,
            name@,
            cds_view(entries@),
            prev_view(previous),
            compressible,
            p,
            opt_string_view(*etag),
        ),
{
    if !compressible {
        decompress_entry(lf)
    } else {
        let mut sib_name = String::from_str(name);
        sib_name.append(".br");
        let crc = lf.crc32;
        proof {
            assert(local_crc32(b@, p) < 0x100000000);
            assert(crc == local_crc32(b@, p) as u32);
        }
        match find_sibling(b, entries, sib_name.as_str(), crc) {
            Some(v) => Ok(v),
            None => {
                let reuse: Option<Vec<u8>> = match previous {
                    Some(prev) => match prev.paths.get(sib_name.as_str()) {
                        Some(e) => {
                            if opt_string_eq(&e.etag, etag) {
                                match &e.content {
                                    Some(c) => Some(bytes_to_vec(c.as_slice())),
                                    None => None,
                                }
                            } else {
                                None
                            }
                        },
                        None => None,
                    },
                    None => None,
                };
                match reuse {
                    Some(v) => Ok(v),
                    None => match decompress_entry(lf) {
                        Err(e) => Err(e),
                        Ok(raw) => match compress_brotli(raw.as_slice()) {
                            Some(enc) => Ok(enc),
                            None => Err(Error::CorruptArchive),
                        },
                    },
                }
            },
        }
    }
}

/// The build outcome for one central-directory entry: `Ok(None)` when the
/// entry is skipped, `Ok(Some((route, entry)))` when it is served, `Err` when
/// the whole build must abort.
pub open spec fn spec_build_entry<S: HeaderSelector>(
    b: Seq<u8>,
    zip_prefix: Seq<char>,
    e: CdEntryModel,
    entries: Seq<CdEntryModel>,
    sel: &S,
    prev: Option<HandlerModel>,
) -> Result<Option<(Seq<char>, EntryModel)>, Error> {
    let name = e.name;
    if !is_char_prefix(name, zip_prefix) {
        Ok(None)
    } else if spec_hidden_name(name) {
        Ok(None)
    } else if spec_extension(spec_filename(name)) == "br"@ {
        Ok(None)
    } else {
        match sel.spec_headers_for(spec_filename(name), spec_extension(spec_filename(name))) {
            None => Ok(None),
            Some(hac) => {
                let p = e.local_header_position as int;
                if !valid_local_at(b, p) {
                    Err(Error::CorruptArchive)
                } else {
                    let crc = local_crc32(b, p) as u32;
                    let route = spec_route_path(zip_prefix, name);
                    let etag = if has_key(hac.headers, HeaderName::CacheControl) {
                        Some(spec_hex(crc as int))
                    } else {
                        None
                    };
                    let base_headers = if etag is Some {
                        hac.headers.push(
                            LineModel {
                                key: HeaderName::ETag,
                                value: encode_utf8(spec_hex(crc as int)),
                            },
                        )
                    } else {
                        hac.headers
                    };
                    match spec_content(b, name, entries, prev, hac.compressible, p, etag) {
                        Err(err) => Err(err),
                        Ok(content) => {
                            if hac.redirection {
                                let end = first_ws(content, 0);
                                let headers = base_headers.push(
                                    LineModel {
                                        key: HeaderName::ContentLength,
                                        value: "0".spec_bytes(),
                                    },
                                ).push(
                                    LineModel {
                                        key: HeaderName::Location,
                                        value: content.subrange(0, end),
                                    },
                                );
                                Ok(Some((route, EntryModel { headers, content: None, etag })))
                            } else {
                                let with_len = base_headers.push(
                                    LineModel {
                                        key: HeaderName::ContentLength,
                                        value: encode_utf8(spec_decimal(content.len() as int)),
                                    },
                                );
                                let headers = if hac.compressible {
                                    with_len.push(
                                        LineModel {
                                            key: HeaderName::ContentEncoding,
                                            value: "br".spec_bytes(),
                                        },
                                    )
                                } else {
                                    with_len
                                };
                                Ok(
                                    Some(
                                        (route, EntryModel { headers, content: Some(content), etag }),
                                    ),
                                )
                            }
                        },
                    }
                }
            },
        }
    }
}

/// Builds the table entry for one central-directory record, against the
/// whole record list (for sibling lookups) and an optional previous table
/// (for compressed-content reuse).
pub fn build_entry<S: HeaderSelector>(
    bytes: &[u8],
    zip_prefix: &str,
    entry: &CdEntry,
    entries: &Vec<CdEntry>,
    header_selector: &S,
    previous: Option<&Handler>,
) -> (r: Result<Option<(String, Entry)>, Error>)
    ensures
        build_result_view(r) == spec_build_entry(
            bytes@,
            zip_prefix@,
            entry@,
            cds_view(entries@),
            header_selector,
            prev_view(previous),
        ),
{
    let name: &str = entry.name.as_str();
    if !str_starts_with(name, zip_prefix) {
        return Ok(None);
    }
    let fname = filename(name);
    if starts_with_dot(fname) || starts_with_dot(name) || has_slash_dot(name) {
        return Ok(None);
    }
    let ext = extension(fname);
    if chars_eq(ext, "br") {
        return Ok(None);
    }
    match header_selector.headers_for_extension(fname, ext) {
        None => Ok(None),
        Some(hac) => {
            let HeadersAndCompression { mut headers, compressible, redirection } = hac;
            let lf = match parse_local_file(bytes, entry.local_header_position) {
                Ok(f) => f,
                Err(e) => {
                    return Err(e);
                },
            };
            let ghost p: int = entry.local_header_position as int;
            let crc = lf.crc32;
            proof {
                assert(local_crc32(bytes@, p) < 0x100000000);
            }
            let route = path(zip_prefix, name);
            let ghost hac_headers = lines_view(headers@);
            let etag: Option<String> = if headers_contain(&headers, HeaderName::CacheControl) {
                let tag = hex_u32(crc);
                headers.push(Line::with_owned_value(HeaderName::ETag, tag.as_str().as_bytes_vec()));
                proof {
                    broadcast use Seq::lemma_push_map_commute;

                    assert(lines_view(headers@) =~= hac_headers.push(
                        LineModel {
                            key: HeaderName::ETag,
                            value: encode_utf8(spec_hex(crc as int)),
                        },
                    ));
                }
                Some(tag)
            } else {
                None
            };
            let ghost base_headers = lines_view(headers@);
            match compute_content(
                bytes,
                name,
                entries,
                previous,
                compressible,
                lf,
                &etag,
                Ghost(p),
            ) {
                Err(e) => Err(e),
                Ok(content) => {
                    if redirection {
                        headers.push(Line::with_slice_value(HeaderName::ContentLength, "0"));
                        let end = find_first_ws(content.as_slice());
                        headers.push(
                            Line::with_owned_value(
                                HeaderName::Location,
                                slice_to_vec(slice_subrange(content.as_slice(), 0, end)),
                            ),
                        );
                        proof {
                            broadcast use Seq::lemma_push_map_commute;

                            assert(lines_view(headers@) =~= base_headers.push(
                                LineModel { key: HeaderName::ContentLength, value: "0".spec_bytes() },
                            ).push(
                                LineModel {
                                    key: HeaderName::Location,
                                    value: content@.subrange(0, first_ws(content@, 0)),
                                },
                            ));
                        }
                        Ok(Some((route, Entry { headers, content: None, etag })))
                    } else {
                        headers.push(
                            Line::with_owned_value(
                                HeaderName::ContentLength,
                                decimal_usize(content.len()).as_str().as_bytes_vec(),
                            ),
                        );
                        if compressible {
                            headers.push(
                                Line::with_slice_value(HeaderName::ContentEncoding, "br"),
                            );
                        }
                        proof {
                            broadcast use Seq::lemma_push_map_commute;

                            let with_len = base_headers.push(
                                LineModel {
                                    key: HeaderName::ContentLength,
                                    value: encode_utf8(spec_decimal(content@.len() as int)),
                                },
                            );
                            if compressible {
                                assert(lines_view(headers@) =~= with_len.push(
                                    LineModel {
                                        key: HeaderName::ContentEncoding,
                                        value: "br".spec_bytes(),
                                    },
                                ));
                            } else {
                                assert(lines_view(headers@) =~= with_len);
                            }
                        }
                        Ok(Some((route, Entry { headers, content: Some(content), etag })))
                    }
                },
            }
        },
    }
}

/// A structural redirect entry (no validator) is served `308 Permanent
/// Redirect` with exactly its stored headers and no body.
pub proof fn lemma_structural_redirect_served(
    h: HandlerModel,
    path: Seq<char>,
    method: Seq<u8>,
    content_length: Option<Seq<u8>>,
    if_none_match: Option<Seq<u8>>,
    if_match: Option<Seq<u8>>,
)
    requires
        content_length is None || content_length == Some(zero_token()),
        method == get_token() || method == head_token(),
        h.paths.contains_key(path),
        h.paths[path].etag is None,
    ensures
        spec_handle(h, method, path, content_length, if_none_match, if_match) == (ResponseModel {
            status: StatusCode::PermanentRedirect,
            headers: h.paths[path].headers,
            body: None,
        }),
{
}

/// An entry that the build serves carries a route equal to the normalized
/// path of its name, which starts with `/` and holds no hidden segment;
/// names with hidden parts are skipped before routing.
pub proof fn lemma_served_entry_route_not_hidden<S: HeaderSelector>(
    b: Seq<u8>,
    zip_prefix: Seq<char>,
    e: CdEntryModel,
    entries: Seq<CdEntryModel>,
    sel: &S,
    prev: Option<HandlerModel>,
)
    ensures
        spec_build_entry(b, zip_prefix, e, entries, sel, prev) matches Ok(Some(pair)) ==> {
            &&& pair.0 == spec_route_path(zip_prefix, e.name)
            &&& !spec_hidden_name(e.name)
            &&& pair.0.len() > 0
            &&& pair.0[0] == '/'
            &&& !crate::path::has_hidden_segment(pair.0)
        },
{
    if spec_build_entry(b, zip_prefix, e, entries, sel, prev) matches Ok(Some(pair)) {
        crate::path::lemma_route_path_not_hidden(zip_prefix, e.name);
    }
}

/// A compressible entry with an acceptable sibling stores exactly the
/// sibling's decoded bytes: the general-purpose encoder is never consulted
/// on that path, whatever it would produce.
pub proof fn lemma_sibling_reused(
    b: Seq<u8>,
    name: Seq<char>,
    entries: Seq<CdEntryModel>,
    prev: Option<HandlerModel>,
    p: int,
    etag: Option<Seq<char>>,
)
    requires
        spec_sibling_search(b, entries, name + ".br"@, local_crc32(b, p) as u32) is Some,
    ensures
        spec_content(b, name, entries, prev, true, p, etag) == Ok::<Seq<u8>, Error>(
            spec_sibling_search(b, entries, name + ".br"@, local_crc32(b, p) as u32).unwrap(),
        ),
{
}

/// The sibling search returns the decoded bytes of an acceptable sibling:
/// when some record is acceptable, the search succeeds, with the earliest
/// acceptable record's bytes.
pub proof fn lemma_sibling_search_finds(
    b: Seq<u8>,
    entries: Seq<CdEntryModel>,
    sib: Seq<char>,
    crc: u32,
    i: int,
)
    requires
        0 <= i < entries.len(),
        sibling_accepts(b, entries[i], sib, crc),
    ensures
        exists|j: int|
            0 <= j <= i && sibling_accepts(b, #[trigger] entries[j], sib, crc)
                && spec_sibling_search(b, entries, sib, crc) == Some(
                sibling_decoded(b, entries[j]),
            ),
    decreases entries.len(),
{
    if sibling_accepts(b, entries[0], sib, crc) {
        assert(sibling_accepts(b, entries[0], sib, crc) && spec_sibling_search(b, entries, sib, crc)
            == Some(sibling_decoded(b, entries[0])));
    } else {
        assert(entries.drop_first()[i - 1] == entries[i]);
        lemma_sibling_search_finds(b, entries.drop_first(), sib, crc, i - 1);
        let j = choose|j: int|
            0 <= j <= i - 1 && sibling_accepts(b, #[trigger] entries.drop_first()[j], sib, crc)
                && spec_sibling_search(b, entries.drop_first(), sib, crc) == Some(
                sibling_decoded(b, entries.drop_first()[j]),
            );
        assert(entries.drop_first()[j] == entries[j + 1]);
        assert(sibling_accepts(b, entries[j + 1], sib, crc) && spec_sibling_search(
            b,
            entries,
            sib,
            crc,
        ) == Some(sibling_decoded(b, entries[j + 1])));
    }
}

/// Across a rebuild, a compressible entry whose bytes did not change stores
/// byte-identical content: every stage of the content choice is a pure
/// function of the entry's payload, the sibling search outcome, and the
/// reusable previous bytes.
pub proof fn lemma_rebuild_same_content(
    b1: Seq<u8>,
    b2: Seq<u8>,
    name: Seq<char>,
    entries1: Seq<CdEntryModel>,
    entries2: Seq<CdEntryModel>,
    prev1: Option<HandlerModel>,
    prev2: Option<HandlerModel>,
    p1: int,
    p2: int,
    etag: Option<Seq<char>>,
)
    requires
        local_method(b1, p1) == local_method(b2, p2),
        local_payload(b1, p1) == local_payload(b2, p2),
        local_uncompressed_size(b1, p1) == local_uncompressed_size(b2, p2),
        local_crc32(b1, p1) == local_crc32(b2, p2),
        spec_sibling_search(b1, entries1, name + ".br"@, local_crc32(b1, p1) as u32)
            == spec_sibling_search(b2, entries2, name + ".br"@, local_crc32(b2, p2) as u32),
        spec_prev_reuse(prev1, name + ".br"@, etag) == spec_prev_reuse(prev2, name + ".br"@, etag),
    ensures
        spec_content(b1, name, entries1, prev1, true, p1, etag) == spec_content(
            b2,
            name,
            entries2,
            prev2,
            true,
            p2,
            etag,
        ),
{
}

proof fn lemma_has_key_push(s: Seq<LineModel>, x: LineModel, k: HeaderName)
    ensures
        has_key(s.push(x), k) <==> (has_key(s, k) || x.key == k),
{
    if has_key(s, k) {
        let i = choose|i: int| 0 <= i < s.len() && (#[trigger] s[i]).key == k;
        assert(s.push(x)[i].key == k);
    }
    if x.key == k {
        assert(s.push(x)[s.len() as int].key == k);
    }
    if has_key(s.push(x), k) {
        let i = choose|i: int| 0 <= i < s.push(x).len() && (#[trigger] s.push(x)[i]).key == k;
        if i < s.len() {
            assert(s[i].key == k);
        }
    }
}

/// Every entry a build serves keeps the table invariants: it carries a
/// validator exactly when its headers carry a cache policy, and an entry
/// without stored content always carries a `Location` header.
pub proof fn lemma_entry_invariants<S: HeaderSelector>(
    b: Seq<u8>,
    zp: Seq<char>,
    e: CdEntryModel,
    entries: Seq<CdEntryModel>,
    sel: &S,
    prev: Option<HandlerModel>,
)
    ensures
        spec_build_entry(b, zp, e, entries, sel, prev) matches Ok(Some(pair)) ==> {
            &&& (pair.1.etag is Some <==> has_key(pair.1.headers, HeaderName::CacheControl))
            &&& (pair.1.content is None ==> has_key(pair.1.headers, HeaderName::Location))
        },
{
    if spec_build_entry(b, zp, e, entries, sel, prev) matches Ok(Some(_)) {
        let pair = spec_build_entry(b, zp, e, entries, sel, prev)->Ok_0.unwrap();
        let name = e.name;
        let hac = sel.spec_headers_for(spec_filename(name), spec_extension(spec_filename(name))).unwrap();
        let p = e.local_header_position as int;
        let crc = local_crc32(b, p) as u32;
        let etag_line = LineModel { key: HeaderName::ETag, value: encode_utf8(spec_hex(crc as int)) };
        let base_headers = if has_key(hac.headers, HeaderName::CacheControl) {
            hac.headers.push(etag_line)
        } else {
            hac.headers
        };
        lemma_has_key_push(hac.headers, etag_line, HeaderName::CacheControl);
        let content = spec_content(b, name, entries, prev, hac.compressible, p, pair.1.etag)->Ok_0;
        if hac.redirection {
            let cl_line = LineModel { key: HeaderName::ContentLength, value: "0".spec_bytes() };
            let loc_line = LineModel {
                key: HeaderName::Location,
                value: content.subrange(0, first_ws(content, 0)),
            };
            lemma_has_key_push(base_headers, cl_line, HeaderName::CacheControl);
            lemma_has_key_push(base_headers.push(cl_line), loc_line, HeaderName::CacheControl);
            lemma_has_key_push(base_headers.push(cl_line), loc_line, HeaderName::Location);
        } else {
            let cl_line = LineModel {
                key: HeaderName::ContentLength,
                value: encode_utf8(spec_decimal(content.len() as int)),
            };
            let ce_line = LineModel { key: HeaderName::ContentEncoding, value: "br".spec_bytes() };
            lemma_has_key_push(base_headers, cl_line, HeaderName::CacheControl);
            lemma_has_key_push(base_headers.push(cl_line), ce_line, HeaderName::CacheControl);
        }
    }
}

} // verus!
