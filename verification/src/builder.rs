//! Configuration and construction of a handler: archive bytes, an archive
//! prefix, a root prefix, an optional custom policy, and an optional
//! previous handler whose compressed bytes may be reused.

use vstd::prelude::*;
use vstd::string::StrSliceExecFns;
use vstd::string::StringExecFns;
use vstd::utf8::encode_utf8;
use crate::errors::Error;
use crate::handler::Entry;
use crate::handler::EntryModel;
use crate::handler::Handler;
use crate::handler::HandlerModel;
use crate::handler::HeaderSelector;
use crate::handler::HeadersAndCompression;
use crate::handler::RouteTable;
use crate::handler::build_entry;
use crate::handler::cds_view;
use crate::handler::prev_view;
use crate::handler::spec_build_entry;
use crate::http::HeaderName;
use crate::http::Line;
use crate::http::LineModel;
use crate::http::lines_view;
use crate::path::sanitize_prefix;
use crate::path::spec_sanitize_prefix;
use crate::types::DefaultHeaderSelector;
use crate::types::spec_default_error_headers;
use crate::zip::CdEntryModel;
use crate::zip::cd_all_valid;
use crate::zip::cd_model;
use crate::zip::cd_pos;
use crate::zip::le16;
use crate::zip::le32;
use crate::zip::parse_central_directory;
use crate::zip::parse_eocd;
use crate::zip::spec_find_eocd;

verus! {

/// One built route folded into a table: the entry at the prefixed route;
/// when the route ends with a slash and is not the bare root (or a prefix is
/// configured), a companion permanent redirect beside it at the slash-less
/// route, pointing at the slash route.
pub open spec fn spec_insert_route<S: HeaderSelector>(
    m: Map<Seq<char>, EntryModel>,
    pp: Seq<char>,
    route: Seq<char>,
    em: EntryModel,
    sel: &S,
) -> Map<Seq<char>, EntryModel> {
    if route.len() > 0 && route[route.len() - 1] == '/' && (route.len() > 1 || pp.len() > 0) {
        let short = route.subrange(0, route.len() - 1);
        let with_main = m.insert(pp + route, em);
        match sel.spec_headers_for(short, "308"@) {
            Some(hac) => with_main.insert(
                pp + short,
                EntryModel {
                    headers: hac.headers.push(
                        LineModel { key: HeaderName::Location, value: encode_utf8(pp + route) },
                    ),
                    content: None,
                    etag: None,
                },
            ),
            None => with_main,
        }
    } else {
        m.insert(pp + route, em)
    }
}

/// The routes of the first `k` central-directory records, folded in order
/// into one table; the first failing record aborts the whole fold.
pub open spec fn spec_routes<S: HeaderSelector>(
    b: Seq<u8>,
    zp: Seq<char>,
    pp: Seq<char>,
    sel: &S,
    prev: Option<HandlerModel>,
    entries: Seq<CdEntryModel>,
    k: int,
) -> Result<Map<Seq<char>, EntryModel>, Error>
    decreases k,
{
    if k <= 0 {
        Ok(Map::empty())
    } else {
        match spec_routes(b, zp, pp, sel, prev, entries, k - 1) {
            Err(e) => Err(e),
            Ok(m) => match spec_build_entry(b, zp, entries[k - 1], entries, sel, prev) {
                Err(e) => Err(e),
                Ok(None) => Ok(m),
                Ok(Some(pair)) => Ok(spec_insert_route(m, pp, pair.0, pair.1, sel)),
            },
        }
    }
}

proof fn lemma_routes_error_persists<S: HeaderSelector>(
    b: Seq<u8>,
    zp: Seq<char>,
    pp: Seq<char>,
    sel: &S,
    prev: Option<HandlerModel>,
    entries: Seq<CdEntryModel>,
    k: int,
    n: int,
)
    requires
        0 <= k <= n,
        spec_routes(b, zp, pp, sel, prev, entries, k) is Err,
    ensures
        spec_routes(b, zp, pp, sel, prev, entries, n) == spec_routes(
            b,
            zp,
            pp,
            sel,
            prev,
            entries,
            k,
        ),
    decreases n - k,
{
    if k < n {
        lemma_routes_error_persists(b, zp, pp, sel, prev, entries, k + 1, n);
    }
}

/// The table a build yields from archive `b`: the end-of-central-directory
/// record is found, the whole central directory is read, and every record's
/// routes are folded in order.
pub open spec fn spec_table<S: HeaderSelector>(
    b: Seq<u8>,
    zp: Seq<char>,
    pp: Seq<char>,
    sel: &S,
    prev: Option<HandlerModel>,
) -> Result<Map<Seq<char>, EntryModel>, Error> {
    match spec_find_eocd(b, 0) {
        None => Err(Error::CorruptArchive),
        Some(pos) => {
            let p0 = le32(b, pos + 16);
            let n = le16(b, pos + 10);
            if !(cd_all_valid(b, p0, n as nat) && cd_pos(b, p0, n as nat) == pos) {
                Err(Error::CorruptArchive)
            } else {
                let entries = Seq::new(n as nat, |i: int| cd_model(b, cd_pos(b, p0, i as nat)));
                spec_routes(b, zp, pp, sel, prev, entries, n)
            }
        },
    }
}

fn insert_route<S: HeaderSelector>(
    routes: &mut RouteTable,
    path_prefix: &str,
    route: String,
    value: Entry,
    sel: &S,
)
    ensures
        final(routes)@ == spec_insert_route(old(routes)@, path_prefix@, route@, value@, sel),
{
    let rn = route.as_str().unicode_len();
    let pn = path_prefix.unicode_len();
    let slash = rn > 0 && route.as_str().get_char(rn - 1) == '/';
    let mut main_key = String::from_str(path_prefix);
    main_key.append(route.as_str());
    if slash && (rn > 1 || pn > 0) {
        let short = route.as_str().substring_char(0, rn - 1);
        routes.insert(main_key, value);
        match sel.headers_for_extension(short, "308") {
            Some(hac) => {
                let HeadersAndCompression { mut headers, compressible: _, redirection: _ } = hac;
                let ghost hac_headers = lines_view(headers@);
                let mut location = String::from_str(path_prefix);
                location.append(route.as_str());
                headers.push(
                    Line::with_owned_value(
                        HeaderName::Location,
                        location.as_str().as_bytes_vec(),
                    ),
                );
                proof {
                    broadcast use Seq::lemma_push_map_commute;

                    assert(lines_view(headers@) =~= hac_headers.push(
                        LineModel {
                            key: HeaderName::Location,
                            value: encode_utf8(path_prefix@ + route@),
                        },
                    ));
                }
                let mut short_key = String::from_str(path_prefix);
                short_key.append(short);
                routes.insert(short_key, Entry { headers, content: None, etag: None });
            },
            None => {},
        }
    } else {
        routes.insert(main_key, value);
    }
}

fn build_with<S: HeaderSelector>(
    bytes: &[u8],
    zip_prefix: &str,
    path_prefix: &str,
    sel: &S,
    diff: Option<&Handler>,
) -> (r: Result<Handler, Error>)
    ensures
        match r {
            Ok(h) => {
                &&& spec_table(bytes@, zip_prefix@, path_prefix@, sel, prev_view(diff))
                    == Ok::<_, Error>(h@.paths)
                &&& h@.error_headers == sel.spec_error_headers()
            },
            Err(e) => spec_table(bytes@, zip_prefix@, path_prefix@, sel, prev_view(diff))
                == Err::<Map<Seq<char>, EntryModel>, Error>(e),
        },
{
    let eocd = match parse_eocd(bytes) {
        Ok(e) => e,
        Err(e) => {
            return Err(e);
        },
    };
    let entries = match parse_central_directory(bytes, &eocd) {
        Ok(v) => v,
        Err(e) => {
            return Err(e);
        },
    };
    let ghost pos: int = eocd.pos as int;
    let ghost p0: int = le32(bytes@, pos + 16);
    let ghost ems = cds_view(entries@);
    proof {
        assert(ems =~= Seq::new(
            le16(bytes@, pos + 10) as nat,
            |i: int| cd_model(bytes@, cd_pos(bytes@, p0, i as nat)),
        ));
    }
    let n = entries.len();
    proof {
        assert(spec_table(bytes@, zip_prefix@, path_prefix@, sel, prev_view(diff)) == spec_routes(
            bytes@,
            zip_prefix@,
            path_prefix@,
            sel,
            prev_view(diff),
            ems,
            n as int,
        ));
    }
    let mut routes = RouteTable::new();
    let mut k: usize = 0;
    while k < n
        invariant
            k <= n,
            n == entries@.len(),
            ems == cds_view(entries@),
            ems.len() == n,
            spec_table(bytes@, zip_prefix@, path_prefix@, sel, prev_view(diff)) == spec_routes(
                bytes@,
                zip_prefix@,
                path_prefix@,
                sel,
                prev_view(diff),
                ems,
                n as int,
            ),
            spec_routes(
                bytes@,
                zip_prefix@,
                path_prefix@,
                sel,
                prev_view(diff),
                ems,
                k as int,
            ) == Ok::<Map<Seq<char>, EntryModel>, Error>(routes@),
        decreases n - k,
    {
        match build_entry(bytes, zip_prefix, &entries[k], &entries, sel, diff) {
            Err(e) => {
                proof {
                    lemma_routes_error_persists(
                        bytes@,
                        zip_prefix@,
                        path_prefix@,
                        sel,
                        prev_view(diff),
                        ems,
                        k + 1,
                        n as int,
                    );
                }
                return Err(e);
            },
            Ok(None) => {},
            Ok(Some(pair)) => {
                insert_route(&mut routes, path_prefix, pair.0, pair.1, sel);
            },
        }
        k = k + 1;
    }
    Ok(Handler { paths: routes, error_headers: sel.error_headers() })
}

/// The build configuration. Every piece is optional; an absent archive is
/// treated as an empty (hence corrupt) one.
pub struct Builder<'h, 'd, S: HeaderSelector> {
    pub zip_prefix: Option<String>,
    pub path_prefix: Option<String>,
    pub header_selector: Option<&'h S>,
    pub diff: Option<&'d Handler>,
    pub bytes: Option<Vec<u8>>,
}

impl Handler {
    /// A builder with nothing configured.
    pub fn builder() -> (r: Builder<'static, 'static, DefaultHeaderSelector>)
        ensures
            r.zip_prefix is None,
            r.path_prefix is None,
            r.header_selector is None,
            r.diff is None,
            r.bytes is None,
    {
        Builder {
            zip_prefix: None,
            path_prefix: None,
            header_selector: None,
            diff: None,
            bytes: None,
        }
    }
}

impl<'h, 'd, S: HeaderSelector> Builder<'h, 'd, S> {
    /// Only archive entries whose name starts with this prefix take part in
    /// the build.
    pub fn with_zip_prefix(self, prefix: String) -> (r: Self)
        ensures
            r.zip_prefix == Some(prefix),
            r.path_prefix == self.path_prefix,
            r.header_selector == self.header_selector,
            r.diff == self.diff,
            r.bytes == self.bytes,
    {
        Builder { zip_prefix: Some(prefix), ..self }
    }

    /// Every route is served under this prefix, brought into canonical form.
    pub fn with_root_prefix(self, prefix: String) -> (r: Self)
        ensures
            r.path_prefix matches Some(p) && p@ == spec_sanitize_prefix(prefix@),
            r.zip_prefix == self.zip_prefix,
            r.header_selector == self.header_selector,
            r.diff == self.diff,
            r.bytes == self.bytes,
    {
        Builder { path_prefix: Some(sanitize_prefix(prefix)), ..self }
    }

    /// Replaces the default type policy.
    pub fn with_custom_header_selector<'h2, S2: HeaderSelector>(
        self,
        header_selector: &'h2 S2,
    ) -> (r: Builder<'h2, 'd, S2>)
        ensures
            r.header_selector == Some(header_selector),
            r.zip_prefix == self.zip_prefix,
            r.path_prefix == self.path_prefix,
            r.diff == self.diff,
            r.bytes == self.bytes,
    {
        Builder {
            zip_prefix: self.zip_prefix,
            path_prefix: self.path_prefix,
            header_selector: Some(header_selector),
            diff: self.diff,
            bytes: self.bytes,
        }
    }

    /// Supplies a previous handler whose compressed bytes may be reused for
    /// unchanged entries.
    pub fn with_diff<'d2>(self, diff: &'d2 Handler) -> (r: Builder<'h, 'd2, S>)
        ensures
            r.diff == Some(diff),
            r.zip_prefix == self.zip_prefix,
            r.path_prefix == self.path_prefix,
            r.header_selector == self.header_selector,
            r.bytes == self.bytes,
    {
        Builder {
            zip_prefix: self.zip_prefix,
            path_prefix: self.path_prefix,
            header_selector: self.header_selector,
            diff: Some(diff),
            bytes: self.bytes,
        }
    }

    /// Supplies the archive bytes.
    pub fn with_zip(self, bytes: Vec<u8>) -> (r: Self)
        ensures
            r.bytes == Some(bytes),
            r.zip_prefix == self.zip_prefix,
            r.path_prefix == self.path_prefix,
            r.header_selector == self.header_selector,
            r.diff == self.diff,
    {
        Builder { bytes: Some(bytes), ..self }
    }

    /// Builds the route table: walks the whole central directory, builds
    /// every accepted entry, and folds the routes into one immutable table.
    /// Any corrupt record or unsupported compression method aborts the build;
    /// no partial table is ever produced.
    pub fn try_build(self) -> (r: Result<Handler, Error>)
        ensures
            ({
                let b = match self.bytes {
                    Some(v) => v@,
                    None => Seq::<u8>::empty(),
                };
                let zp = match self.zip_prefix {
                    Some(s) => s@,
                    None => Seq::<char>::empty(),
                };
                let pp = match self.path_prefix {
                    Some(s) => s@,
                    None => Seq::<char>::empty(),
                };
                let prev = prev_view(self.diff);
                match self.header_selector {
                    Some(sel) => match r {
                        Ok(h) => spec_table(b, zp, pp, sel, prev) == Ok::<_, Error>(h@.paths)
                            && h@.error_headers == sel.spec_error_headers(),
                        Err(e) => spec_table(b, zp, pp, sel, prev) == Err::<
                            Map<Seq<char>, EntryModel>,
                            Error,
                        >(e),
                    },
                    None => match r {
                        Ok(h) => spec_table(b, zp, pp, &DefaultHeaderSelector, prev)
                            == Ok::<_, Error>(h@.paths) && h@.error_headers
                            == spec_default_error_headers(),
                        Err(e) => spec_table(b, zp, pp, &DefaultHeaderSelector, prev) == Err::<
                            Map<Seq<char>, EntryModel>,
                            Error,
                        >(e),
                    },
                }
            }),
    {
        let bytes: Vec<u8> = match self.bytes {
            Some(v) => v,
            None => Vec::new(),
        };
        let zp: &str = match &self.zip_prefix {
            Some(s) => s.as_str(),
            None => "",
        };
        let pp: &str = match &self.path_prefix {
            Some(s) => s.as_str(),
            None => "",
        };
        proof {
            reveal_strlit("");
            assert(""@ =~= Seq::<char>::empty());
        }
        match self.header_selector {
            Some(sel) => build_with(bytes.as_slice(), zp, pp, sel, self.diff),
            None => build_with(bytes.as_slice(), zp, pp, &DefaultHeaderSelector, self.diff),
        }
    }
}

/// Whether `key` is one of the keys that record `i` contributes: the
/// prefixed route of its served entry, or that route with its trailing slash
/// removed.
pub open spec fn key_from_entry<S: HeaderSelector>(
    b: Seq<u8>,
    zp: Seq<char>,
    pp: Seq<char>,
    sel: &S,
    prev: Option<HandlerModel>,
    entries: Seq<CdEntryModel>,
    i: int,
    key: Seq<char>,
) -> bool {
    &&& spec_build_entry(b, zp, entries[i], entries, sel, prev) matches Ok(Some(pair))
    &&& (key == pp + pair.0 || (pair.0.len() > 0 && pair.0[pair.0.len() - 1] == '/' && key == pp
        + pair.0.subrange(0, pair.0.len() - 1)))
}

/// Every key of a built table comes from some served record: it is the
/// configured prefix followed by that record's route, or by that route with
/// its trailing slash removed.
pub proof fn lemma_table_keys_shape<S: HeaderSelector>(
    b: Seq<u8>,
    zp: Seq<char>,
    pp: Seq<char>,
    sel: &S,
    prev: Option<HandlerModel>,
    entries: Seq<CdEntryModel>,
    k: int,
)
    ensures
        spec_routes(b, zp, pp, sel, prev, entries, k) matches Ok(m) ==> forall|key: Seq<char>|
            m.contains_key(key) ==> exists|i: int|
                0 <= i < k && #[trigger] key_from_entry(b, zp, pp, sel, prev, entries, i, key),
    decreases k,
{
    if k > 0 && spec_routes(b, zp, pp, sel, prev, entries, k) is Ok {
        lemma_table_keys_shape(b, zp, pp, sel, prev, entries, k - 1);
        let m0 = spec_routes(b, zp, pp, sel, prev, entries, k - 1)->Ok_0;
        let m = spec_routes(b, zp, pp, sel, prev, entries, k)->Ok_0;
        match spec_build_entry(b, zp, entries[k - 1], entries, sel, prev) {
            Ok(Some(pair)) => {
                assert forall|key: Seq<char>| m.contains_key(key) implies exists|i: int|
                    0 <= i < k && #[trigger] key_from_entry(
                        b,
                        zp,
                        pp,
                        sel,
                        prev,
                        entries,
                        i,
                        key,
                    ) by {
                    if m0.contains_key(key) {
                        let i = choose|i: int|
                            0 <= i < k - 1 && #[trigger] key_from_entry(
                                b,
                                zp,
                                pp,
                                sel,
                                prev,
                                entries,
                                i,
                                key,
                            );
                        assert(key_from_entry(b, zp, pp, sel, prev, entries, i, key));
                    } else {
                        assert(key_from_entry(b, zp, pp, sel, prev, entries, k - 1, key));
                    }
                }
            },
            Ok(None) => {},
            Err(_) => {},
        }
    }
}

/// Whether record `j` is served at all.
pub open spec fn served<S: HeaderSelector>(
    b: Seq<u8>,
    zp: Seq<char>,
    sel: &S,
    prev: Option<HandlerModel>,
    entries: Seq<CdEntryModel>,
    j: int,
) -> bool {
    spec_build_entry(b, zp, entries[j], entries, sel, prev) matches Ok(Some(pair))
}

/// The route of a served record (the empty sequence otherwise).
pub open spec fn served_route<S: HeaderSelector>(
    b: Seq<u8>,
    zp: Seq<char>,
    sel: &S,
    prev: Option<HandlerModel>,
    entries: Seq<CdEntryModel>,
    j: int,
) -> Seq<char> {
    match spec_build_entry(b, zp, entries[j], entries, sel, prev) {
        Ok(Some(pair)) => pair.0,
        _ => Seq::empty(),
    }
}

/// Whether record `i` is served with a slash-ended route that receives a
/// companion: not the bare root without prefix, and with permanent-redirect
/// headers supplied by the policy.
pub open spec fn served_slash_route<S: HeaderSelector>(
    b: Seq<u8>,
    zp: Seq<char>,
    pp: Seq<char>,
    sel: &S,
    prev: Option<HandlerModel>,
    entries: Seq<CdEntryModel>,
    i: int,
) -> bool {
    let route = served_route(b, zp, sel, prev, entries, i);
    &&& served(b, zp, sel, prev, entries, i)
    &&& route.len() > 0
    &&& route[route.len() - 1] == '/'
    &&& (route.len() > 1 || pp.len() > 0)
    &&& sel.spec_headers_for(route.subrange(0, route.len() - 1), "308"@) is Some
}

/// The companion redirect bound beside a slash route: the policy's
/// permanent-redirect headers followed by a `Location` naming the prefixed
/// slash path, no body, no validator.
pub open spec fn companion_model<S: HeaderSelector>(
    pp: Seq<char>,
    route: Seq<char>,
    sel: &S,
) -> EntryModel {
    EntryModel {
        headers: sel.spec_headers_for(
            route.subrange(0, route.len() - 1),
            "308"@,
        ).unwrap().headers.push(
            LineModel { key: HeaderName::Location, value: encode_utf8(pp + route) },
        ),
        content: None,
        etag: None,
    }
}

proof fn lemma_concat_left_cancel(pp: Seq<char>, a: Seq<char>, b: Seq<char>)
    requires
        pp + a == pp + b,
    ensures
        a == b,
{
    assert(a =~= (pp + a).subrange(pp.len() as int, (pp + a).len() as int));
    assert(b =~= (pp + b).subrange(pp.len() as int, (pp + b).len() as int));
}

/// A built table pairs every eligible slash route with its companion: when
/// no other record's route equals the slash-less form of a served slash
/// route, the table keeps a key at the prefixed slash route and, at the same
/// path without the trailing slash, a companion permanent redirect whose
/// `Location` names the prefixed slash path. A route that shadows another
/// record's slash-less key is the one input shape left out.
pub proof fn lemma_table_slash_companions<S: HeaderSelector>(
    b: Seq<u8>,
    zp: Seq<char>,
    pp: Seq<char>,
    sel: &S,
    prev: Option<HandlerModel>,
    entries: Seq<CdEntryModel>,
    k: int,
)
    requires
        forall|i: int, j: int|
            (0 <= i < k && 0 <= j < k && #[trigger] served_slash_route(
                b,
                zp,
                pp,
                sel,
                prev,
                entries,
                i,
            ) && #[trigger] served(b, zp, sel, prev, entries, j)) ==> served_route(
                b,
                zp,
                sel,
                prev,
                entries,
                j,
            ) != served_route(b, zp, sel, prev, entries, i).subrange(
                0,
                served_route(b, zp, sel, prev, entries, i).len() - 1,
            ),
    ensures
        spec_routes(b, zp, pp, sel, prev, entries, k) matches Ok(m) ==> forall|i: int|
            0 <= i < k && #[trigger] served_slash_route(b, zp, pp, sel, prev, entries, i) ==> ({
                let route = served_route(b, zp, sel, prev, entries, i);
                &&& m.contains_key(pp + route)
                &&& m.contains_key(pp + route.subrange(0, route.len() - 1))
                &&& m[pp + route.subrange(0, route.len() - 1)] == companion_model(pp, route, sel)
            }),
    decreases k,
{
    if k > 0 && spec_routes(b, zp, pp, sel, prev, entries, k) is Ok {
        lemma_table_slash_companions(b, zp, pp, sel, prev, entries, k - 1);
        let m0 = spec_routes(b, zp, pp, sel, prev, entries, k - 1)->Ok_0;
        let m = spec_routes(b, zp, pp, sel, prev, entries, k)->Ok_0;
        match spec_build_entry(b, zp, entries[k - 1], entries, sel, prev) {
            Err(_) => {},
            Ok(None) => {
                assert(m == m0);
                assert forall|i: int|
                    0 <= i < k && #[trigger] served_slash_route(
                        b,
                        zp,
                        pp,
                        sel,
                        prev,
                        entries,
                        i,
                    ) implies ({
                    let route = served_route(b, zp, sel, prev, entries, i);
                    &&& m.contains_key(pp + route)
                    &&& m.contains_key(pp + route.subrange(0, route.len() - 1))
                    &&& m[pp + route.subrange(0, route.len() - 1)] == companion_model(
                        pp,
                        route,
                        sel,
                    )
                }) by {
                    assert(i != k - 1);
                }
            },
            Ok(Some(pair)) => {
                let route_k = pair.0;
                assert(served(b, zp, sel, prev, entries, k - 1));
                assert(served_route(b, zp, sel, prev, entries, k - 1) == route_k);
                assert(m == spec_insert_route(m0, pp, route_k, pair.1, sel));
                let companions = route_k.len() > 0 && route_k[route_k.len() - 1] == '/' && (
                route_k.len() > 1 || pp.len() > 0);
                assert forall|i: int|
                    0 <= i < k && #[trigger] served_slash_route(
                        b,
                        zp,
                        pp,
                        sel,
                        prev,
                        entries,
                        i,
                    ) implies ({
                    let route = served_route(b, zp, sel, prev, entries, i);
                    &&& m.contains_key(pp + route)
                    &&& m.contains_key(pp + route.subrange(0, route.len() - 1))
                    &&& m[pp + route.subrange(0, route.len() - 1)] == companion_model(
                        pp,
                        route,
                        sel,
                    )
                }) by {
                    let route = served_route(b, zp, sel, prev, entries, i);
                    let short = route.subrange(0, route.len() - 1);
                    let main_key = pp + route;
                    let short_key = pp + short;
                    if i == k - 1 {
                        assert(route == route_k);
                        assert(served_slash_route(b, zp, pp, sel, prev, entries, k - 1));
                        assert(main_key.len() == pp.len() + route.len());
                        assert(short_key.len() == pp.len() + route.len() - 1);
                        assert(m.contains_key(main_key));
                        assert(m.contains_key(short_key));
                        assert(m[short_key] == companion_model(pp, route, sel));
                    } else {
                        assert(served_slash_route(b, zp, pp, sel, prev, entries, i));
                        assert(m0.contains_key(main_key));
                        assert(m0.contains_key(short_key));
                        assert(m0[short_key] == companion_model(pp, route, sel));
                        // The new record's own keys cannot displace the
                        // companion: its route is no record's slash-less key,
                        // and an equal slash-less key means an equal route.
                        if pp + route_k == short_key {
                            lemma_concat_left_cancel(pp, route_k, short);
                            assert(served_route(b, zp, sel, prev, entries, k - 1) == served_route(
                                b,
                                zp,
                                sel,
                                prev,
                                entries,
                                i,
                            ).subrange(0, served_route(b, zp, sel, prev, entries, i).len() - 1));
                            assert(false);
                        }
                        if companions {
                            let short_k = route_k.subrange(0, route_k.len() - 1);
                            if pp + short_k == short_key {
                                lemma_concat_left_cancel(pp, short_k, short);
                                assert(route =~= short.push(route[route.len() - 1]));
                                assert(route_k =~= short_k.push(route_k[route_k.len() - 1]));
                                assert(route_k == route);
                                assert(m[short_key] == companion_model(pp, route, sel));
                            } else {
                                assert(m[short_key] == m0[short_key]);
                            }
                        } else {
                            assert(m[short_key] == m0[short_key]);
                        }
                        assert(m.contains_key(main_key));
                        assert(m.contains_key(short_key));
                    }
                }
            },
        }
    }
}

/// Every key of a built table is the configured prefix followed by a served
/// record's route, or by that route without its trailing slash, and such a
/// route starts with `/` and never holds a hidden segment (a `.` right after
/// a `/`).
pub proof fn lemma_table_no_hidden_keys<S: HeaderSelector>(
    b: Seq<u8>,
    zp: Seq<char>,
    pp: Seq<char>,
    sel: &S,
    prev: Option<HandlerModel>,
    entries: Seq<CdEntryModel>,
    k: int,
)
    ensures
        spec_routes(b, zp, pp, sel, prev, entries, k) matches Ok(m) ==> forall|key: Seq<char>|
            m.contains_key(key) ==> exists|i: int|
                {
                    &&& 0 <= i < k
                    &&& #[trigger] key_from_entry(b, zp, pp, sel, prev, entries, i, key)
                    &&& served_route(b, zp, sel, prev, entries, i).len() > 0
                    &&& served_route(b, zp, sel, prev, entries, i)[0] == '/'
                    &&& !crate::path::has_hidden_segment(served_route(b, zp, sel, prev, entries, i))
                },
{
    lemma_table_keys_shape(b, zp, pp, sel, prev, entries, k);
    if spec_routes(b, zp, pp, sel, prev, entries, k) is Ok {
        let m = spec_routes(b, zp, pp, sel, prev, entries, k)->Ok_0;
        assert forall|key: Seq<char>| m.contains_key(key) implies exists|i: int|
            {
                &&& 0 <= i < k
                &&& #[trigger] key_from_entry(b, zp, pp, sel, prev, entries, i, key)
                &&& served_route(b, zp, sel, prev, entries, i).len() > 0
                &&& served_route(b, zp, sel, prev, entries, i)[0] == '/'
                &&& !crate::path::has_hidden_segment(served_route(b, zp, sel, prev, entries, i))
            } by {
            let i = choose|i: int|
                0 <= i < k && #[trigger] key_from_entry(b, zp, pp, sel, prev, entries, i, key);
            assert(served(b, zp, sel, prev, entries, i));
            crate::handler::lemma_served_entry_route_not_hidden(
                b,
                zp,
                entries[i],
                entries,
                sel,
                prev,
            );
            assert(key_from_entry(b, zp, pp, sel, prev, entries, i, key)
                && served_route(b, zp, sel, prev, entries, i).len() > 0 && served_route(
                b,
                zp,
                sel,
                prev,
                entries,
                i,
            )[0] == '/' && !crate::path::has_hidden_segment(
                served_route(b, zp, sel, prev, entries, i),
            ));
        }
    }
}

/// The central-directory records a build of archive `b` walks, read at the
/// announced positions.
pub open spec fn spec_table_entries(b: Seq<u8>) -> Seq<CdEntryModel>
    recommends
        spec_find_eocd(b, 0) is Some,
{
    let pos = spec_find_eocd(b, 0).unwrap();
    let p0 = le32(b, pos + 16);
    Seq::new(le16(b, pos + 10) as nat, |i: int| cd_model(b, cd_pos(b, p0, i as nat)))
}

/// `lemma_table_no_hidden_keys` at the build's own contract: every key of a
/// table the build returns comes from a served record's route (whole or with
/// its trailing slash removed), and that route starts with `/` and never
/// holds a hidden segment.
pub proof fn lemma_built_table_no_hidden_keys<S: HeaderSelector>(
    b: Seq<u8>,
    zp: Seq<char>,
    pp: Seq<char>,
    sel: &S,
    prev: Option<HandlerModel>,
)
    ensures
        spec_table(b, zp, pp, sel, prev) matches Ok(m) ==> ({
            let entries = spec_table_entries(b);
            forall|key: Seq<char>|
                m.contains_key(key) ==> exists|i: int|
                    {
                        &&& 0 <= i < entries.len()
                        &&& #[trigger] key_from_entry(b, zp, pp, sel, prev, entries, i, key)
                        &&& served_route(b, zp, sel, prev, entries, i).len() > 0
                        &&& served_route(b, zp, sel, prev, entries, i)[0] == '/'
                        &&& !crate::path::has_hidden_segment(
                            served_route(b, zp, sel, prev, entries, i),
                        )
                    }
        }),
{
    if spec_table(b, zp, pp, sel, prev) is Ok {
        let entries = spec_table_entries(b);
        let pos = spec_find_eocd(b, 0).unwrap();
        let n = le16(b, pos + 10);
        lemma_table_no_hidden_keys(b, zp, pp, sel, prev, entries, n);
        assert(spec_routes(b, zp, pp, sel, prev, entries, n) == spec_table(b, zp, pp, sel, prev));
    }
}

/// `lemma_table_slash_companions` at the build's own contract: when no
/// record's route equals another served slash route's slash-less form, the
/// table the build returns pairs every eligible slash route with its
/// companion permanent redirect.
pub proof fn lemma_built_table_slash_companions<S: HeaderSelector>(
    b: Seq<u8>,
    zp: Seq<char>,
    pp: Seq<char>,
    sel: &S,
    prev: Option<HandlerModel>,
)
    requires
        ({
            let entries = spec_table_entries(b);
            forall|i: int, j: int|
                (0 <= i < entries.len() && 0 <= j < entries.len() && #[trigger] served_slash_route(
                    b,
                    zp,
                    pp,
                    sel,
                    prev,
                    entries,
                    i,
                ) && #[trigger] served(b, zp, sel, prev, entries, j)) ==> served_route(
                    b,
                    zp,
                    sel,
                    prev,
                    entries,
                    j,
                ) != served_route(b, zp, sel, prev, entries, i).subrange(
                    0,
                    served_route(b, zp, sel, prev, entries, i).len() - 1,
                )
        }),
    ensures
        spec_table(b, zp, pp, sel, prev) matches Ok(m) ==> ({
            let entries = spec_table_entries(b);
            forall|i: int|
                0 <= i < entries.len() && #[trigger] served_slash_route(
                    b,
                    zp,
                    pp,
                    sel,
                    prev,
                    entries,
                    i,
                ) ==> ({
                    let route = served_route(b, zp, sel, prev, entries, i);
                    &&& m.contains_key(pp + route)
                    &&& m.contains_key(pp + route.subrange(0, route.len() - 1))
                    &&& m[pp + route.subrange(0, route.len() - 1)] == companion_model(
                        pp,
                        route,
                        sel,
                    )
                })
        }),
{
    if spec_table(b, zp, pp, sel, prev) is Ok {
        let entries = spec_table_entries(b);
        let pos = spec_find_eocd(b, 0).unwrap();
        let n = le16(b, pos + 10);
        lemma_table_slash_companions(b, zp, pp, sel, prev, entries, n);
        assert(spec_routes(b, zp, pp, sel, prev, entries, n) == spec_table(b, zp, pp, sel, prev));
    }
}

} // verus!
